//! The quadtree: a spatial index over a fixed rectangular universe.
//!
//! The tree owns its entries top-down. A node is either `Empty`, a `Bucket`
//! of entries, or `Internal` with exactly four children, one per quadrant
//! of the node's rectangle. A bucket that outgrows `MAX_POINTS` is
//! redistributed into four children — unless its rectangle is already too
//! small to split, in which case the bucket simply keeps growing; that
//! terminal-bucket policy bounds the recursion depth even when many entries
//! share one coordinate.
//!
//! The model of a tree is the flat sequence of its (point, payload) entries,
//! read off depth-first. Insertion is specified up to multiset equality on
//! that sequence; queries are specified exactly, as a filter of it.

use vstd::prelude::*;
use vstd::multiset::Multiset;
use vstd::seq_lib::group_to_multiset_ensures;
use vstd::seq_lib::lemma_multiset_commutative;
pub use crate::geometry::Boundry;
pub use crate::geometry::Point;
use crate::geometry::lemma_index_quad_contains;
use crate::geometry::lemma_inside_transfers;
use crate::geometry::lemma_no_overlap_no_common_point;
use crate::geometry::lemma_quad_inside;
use crate::geometry::lemma_quad_smaller;
use crate::geometry::lemma_quad_wf;

verus! {

broadcast use group_to_multiset_ensures, vstd::multiset::group_multiset_axioms;

/// How many entries a bucket holds before it is split (when its rectangle
/// can still be split).
pub const MAX_POINTS: usize = 11;

/// The error returned when a coordinate lies outside the universe.
#[derive(Clone, Copy, Debug, PartialEq, Eq, Structural)]
pub struct OutOfBounds;

/// The four children of an internal node, by quadrant index.
struct Quads<T> {
    q0: QuadTreeNode<T>,
    q1: QuadTreeNode<T>,
    q2: QuadTreeNode<T>,
    q3: QuadTreeNode<T>,
}

/// One node of the tree: nothing below, a leaf bucket of entries in
/// insertion order, or four children covering the node's four quadrants.
enum QuadTreeNode<T> {
    Empty,
    Bucket(Vec<(Point, T)>),
    Internal(Box<Quads<T>>),
}

/// Every entry's point lies in `b`.
pub open spec fn all_in<T>(s: Seq<(Point, T)>, b: Boundry) -> bool {
    forall|k: int| 0 <= k < s.len() ==> b.spec_contains((#[trigger] s[k]).0)
}

/// Every entry's point is assigned quadrant `i` of `b`.
pub open spec fn all_index<T>(s: Seq<(Point, T)>, b: Boundry, i: int) -> bool {
    forall|k: int| 0 <= k < s.len() ==> b.spec_index((#[trigger] s[k]).0) == i
}

/// The entries whose points lie in `area`: what a brute-force scan of the
/// entries would keep.
pub open spec fn restrict<T>(s: Seq<(Point, T)>, area: Boundry) -> Seq<(Point, T)> {
    s.filter(|e: (Point, T)| area.spec_contains(e.0))
}

/// The payloads of a sequence of entries, in order.
pub open spec fn payloads<T>(s: Seq<(Point, T)>) -> Seq<T> {
    s.map_values(|e: (Point, T)| e.1)
}

/// The values of a sequence of references, in order.
pub open spec fn deref_values<T>(s: Seq<&T>) -> Seq<T> {
    s.map_values(|t: &T| *t)
}

/// Some entry of `s` has point `p`.
pub open spec fn has_point<T>(s: Seq<(Point, T)>, p: Point) -> bool {
    exists|k: int| 0 <= k < s.len() && (#[trigger] s[k]).0 == p
}

impl<T> Quads<T> {
    /// The entries below the four children, in quadrant order.
    spec fn entries(self) -> Seq<(Point, T)>
        decreases self,
    {
        self.q0.entries() + self.q1.entries() + self.q2.entries() + self.q3.entries()
    }

    /// Each child is well formed against its quadrant of `b`, and holds
    /// only entries that `b` assigns to that quadrant.
    spec fn wf(self, b: Boundry) -> bool
        decreases self,
    {
        &&& self.q0.wf(b.spec_quad(0))
        &&& self.q1.wf(b.spec_quad(1))
        &&& self.q2.wf(b.spec_quad(2))
        &&& self.q3.wf(b.spec_quad(3))
        &&& all_index(self.q0.entries(), b, 0)
        &&& all_index(self.q1.entries(), b, 1)
        &&& all_index(self.q2.entries(), b, 2)
        &&& all_index(self.q3.entries(), b, 3)
    }
}

impl<T> QuadTreeNode<T> {
    /// The entries below this node, depth-first.
    spec fn entries(self) -> Seq<(Point, T)>
        decreases self,
    {
        match self {
            QuadTreeNode::Empty => Seq::empty(),
            QuadTreeNode::Bucket(v) => v@,
            QuadTreeNode::Internal(q) => q.entries(),
        }
    }

    /// Well-formedness against the rectangle this node covers: bucket
    /// entries lie in the rectangle; an internal node's rectangle is
    /// splittable and its children are well formed per quadrant.
    spec fn wf(self, b: Boundry) -> bool
        decreases self,
    {
        match self {
            QuadTreeNode::Empty => true,
            QuadTreeNode::Bucket(v) => all_in(v@, b),
            QuadTreeNode::Internal(q) => b.spec_splittable() && q.wf(b),
        }
    }
}

/// A property that holds of every element of a sequence still holds after
/// the sequence is rearranged and one element satisfying it is added.
proof fn lemma_all_after_insert<A>(snew: Seq<A>, sold: Seq<A>, e: A, pred: spec_fn(A) -> bool)
    requires
        snew.to_multiset() == sold.to_multiset().insert(e),
        forall|k: int| 0 <= k < sold.len() ==> pred(#[trigger] sold[k]),
        pred(e),
    ensures
        forall|k: int| 0 <= k < snew.len() ==> pred(#[trigger] snew[k]),
{
    assert forall|k: int| 0 <= k < snew.len() implies pred(snew[k]) by {
        let a = snew[k];
        assert(snew.contains(a));
        assert(snew.to_multiset().count(a) > 0);
        if a != e {
            assert(sold.to_multiset().count(a) > 0);
            assert(sold.contains(a));
            let j = choose|j: int| 0 <= j < sold.len() && sold[j] == a;
            assert(pred(sold[j]));
        }
    }
}

/// `all_in` is preserved by concatenation.
proof fn lemma_all_in_concat<T>(s1: Seq<(Point, T)>, s2: Seq<(Point, T)>, b: Boundry)
    requires
        all_in(s1, b),
        all_in(s2, b),
    ensures
        all_in(s1 + s2, b),
{
    assert forall|k: int| 0 <= k < (s1 + s2).len() implies b.spec_contains(
        (#[trigger] (s1 + s2)[k]).0,
    ) by {
        if k < s1.len() {
            assert((s1 + s2)[k] == s1[k]);
        } else {
            assert((s1 + s2)[k] == s2[k - s1.len()]);
        }
    }
}

/// All entries below a well-formed node lie in the node's rectangle.
proof fn lemma_wf_entries_in<T>(n: QuadTreeNode<T>, b: Boundry)
    requires
        b.wf(),
        n.wf(b),
    ensures
        all_in(n.entries(), b),
    decreases n,
{
    match n {
        QuadTreeNode::Empty => {},
        QuadTreeNode::Bucket(v) => {},
        QuadTreeNode::Internal(q) => {
            lemma_quad_wf(b, 0);
            lemma_quad_wf(b, 1);
            lemma_quad_wf(b, 2);
            lemma_quad_wf(b, 3);
            lemma_wf_entries_in(q.q0, b.spec_quad(0));
            lemma_wf_entries_in(q.q1, b.spec_quad(1));
            lemma_wf_entries_in(q.q2, b.spec_quad(2));
            lemma_wf_entries_in(q.q3, b.spec_quad(3));
            lemma_quad_inside(b, 0);
            lemma_quad_inside(b, 1);
            lemma_quad_inside(b, 2);
            lemma_quad_inside(b, 3);
            lemma_entries_into_outer(q.q0.entries(), b.spec_quad(0), b);
            lemma_entries_into_outer(q.q1.entries(), b.spec_quad(1), b);
            lemma_entries_into_outer(q.q2.entries(), b.spec_quad(2), b);
            lemma_entries_into_outer(q.q3.entries(), b.spec_quad(3), b);
            lemma_all_in_concat(q.q0.entries(), q.q1.entries(), b);
            lemma_all_in_concat(q.q0.entries() + q.q1.entries(), q.q2.entries(), b);
            lemma_all_in_concat(
                q.q0.entries() + q.q1.entries() + q.q2.entries(),
                q.q3.entries(),
                b,
            );
        },
    }
}

/// The multiset of a four-way concatenation is the sum of the four parts.
proof fn lemma_ms_concat4<T>(a: Seq<(Point, T)>, b: Seq<(Point, T)>, c: Seq<(Point, T)>, d: Seq<
    (Point, T),
>)
    ensures
        (a + b + c + d).to_multiset() == a.to_multiset().add(b.to_multiset()).add(
            c.to_multiset(),
        ).add(d.to_multiset()),
{
    lemma_multiset_commutative(a, b);
    lemma_multiset_commutative(a + b, c);
    lemma_multiset_commutative(a + b + c, d);
}

impl<T> QuadTreeNode<T> {
    /// Insert an entry below the four children of an internal node whose
    /// rectangle is `b`, descending into the quadrant `b` assigns to `p`.
    fn quads_insert(q: Quads<T>, b: Boundry, p: Point, data: T) -> (r: Quads<T>)
        requires
            b.wf(),
            b.spec_splittable(),
            b.spec_contains(p),
            q.wf(b),
        ensures
            r.wf(b),
            r.entries().to_multiset() == q.entries().to_multiset().insert((p, data)),
        decreases b.size(), 0int,
    {
        let (sub, index) = b.find_subarea(p);
        proof {
            lemma_index_quad_contains(b, p);
            lemma_quad_wf(b, index as int);
            lemma_quad_smaller(b, index as int);
        }
        let ghost qold = q;
        let Quads { q0, q1, q2, q3 } = q;
        let r: Quads<T> = if index == 0 {
            let q0n = q0.insert(sub, p, data);
            proof {
                lemma_all_after_insert(
                    q0n.entries(),
                    qold.q0.entries(),
                    (p, data),
                    |e: (Point, T)| b.spec_index(e.0) == 0,
                );
            }
            Quads { q0: q0n, q1, q2, q3 }
        } else if index == 1 {
            let q1n = q1.insert(sub, p, data);
            proof {
                lemma_all_after_insert(
                    q1n.entries(),
                    qold.q1.entries(),
                    (p, data),
                    |e: (Point, T)| b.spec_index(e.0) == 1,
                );
            }
            Quads { q0, q1: q1n, q2, q3 }
        } else if index == 2 {
            let q2n = q2.insert(sub, p, data);
            proof {
                lemma_all_after_insert(
                    q2n.entries(),
                    qold.q2.entries(),
                    (p, data),
                    |e: (Point, T)| b.spec_index(e.0) == 2,
                );
            }
            Quads { q0, q1, q2: q2n, q3 }
        } else {
            let q3n = q3.insert(sub, p, data);
            proof {
                lemma_all_after_insert(
                    q3n.entries(),
                    qold.q3.entries(),
                    (p, data),
                    |e: (Point, T)| b.spec_index(e.0) == 3,
                );
            }
            Quads { q0, q1, q2, q3: q3n }
        };
        proof {
            lemma_ms_concat4(
                qold.q0.entries(),
                qold.q1.entries(),
                qold.q2.entries(),
                qold.q3.entries(),
            );
            lemma_ms_concat4(r.q0.entries(), r.q1.entries(), r.q2.entries(), r.q3.entries());
            assert(r.entries().to_multiset() =~= qold.entries().to_multiset().insert((p, data)));
        }
        r
    }

    /// Insert an entry below this node. Empty nodes become buckets; a full
    /// bucket over a splittable rectangle is redistributed into four
    /// children; a bucket over a rectangle too small to split keeps
    /// growing instead, so the descent always terminates.
    fn insert(self, b: Boundry, p: Point, data: T) -> (r: Self)
        requires
            b.wf(),
            b.spec_contains(p),
            self.wf(b),
        ensures
            r.wf(b),
            r.entries().to_multiset() == self.entries().to_multiset().insert((p, data)),
        decreases b.size(), 1int,
    {
        match self {
            QuadTreeNode::Empty => {
                let mut v: Vec<(Point, T)> = Vec::new();
                v.push((p, data));
                proof {
                    assert(v@.to_multiset() =~= Seq::<(Point, T)>::empty().to_multiset().insert(
                        (p, data),
                    ));
                }
                QuadTreeNode::Bucket(v)
            },
            QuadTreeNode::Bucket(bucket) => {
                let mut v = bucket;
                if v.len() < MAX_POINTS || !b.splittable() {
                    let ghost oldv = v@;
                    v.push((p, data));
                    proof {
                        assert forall|k: int| 0 <= k < v@.len() implies b.spec_contains(
                            (#[trigger] v@[k]).0,
                        ) by {
                            if k < oldv.len() {
                                assert(v@[k] == oldv[k]);
                            }
                        }
                    }
                    QuadTreeNode::Bucket(v)
                } else {
                    let ghost orig = v@;
                    let mut quads = Quads::<T> {
                        q0: QuadTreeNode::Empty,
                        q1: QuadTreeNode::Empty,
                        q2: QuadTreeNode::Empty,
                        q3: QuadTreeNode::Empty,
                    };
                    proof {
                        assert(quads.entries() =~= Seq::<(Point, T)>::empty());
                        assert(quads.entries().to_multiset().add(v@.to_multiset())
                            =~= orig.to_multiset());
                    }
                    while v.len() > 0
                        invariant
                            b.wf(),
                            b.spec_splittable(),
                            all_in(v@, b),
                            quads.wf(b),
                            quads.entries().to_multiset().add(v@.to_multiset())
                                == orig.to_multiset(),
                        decreases v.len(),
                    {
                        let ghost prev = v@;
                        let e = v.pop().unwrap();
                        proof {
                            assert(prev =~= v@.push(e));
                            assert(v@.push(e).to_multiset() == v@.to_multiset().insert(e));
                            assert(prev.to_multiset() == v@.to_multiset().insert(e));
                            assert(b.spec_contains(e.0));
                        }
                        quads = Self::quads_insert(quads, b, e.0, e.1);
                        proof {
                            assert(quads.entries().to_multiset().add(v@.to_multiset())
                                =~= orig.to_multiset());
                        }
                    }
                    proof {
                        assert(v@ =~= Seq::<(Point, T)>::empty());
                        assert(v@.to_multiset() =~= Multiset::<(Point, T)>::empty());
                        assert(quads.entries().to_multiset() =~= orig.to_multiset());
                    }
                    let quads = Self::quads_insert(quads, b, p, data);
                    QuadTreeNode::Internal(Box::new(quads))
                }
            },
            QuadTreeNode::Internal(qb) => {
                let quads = Self::quads_insert(*qb, b, p, data);
                QuadTreeNode::Internal(Box::new(quads))
            },
        }
    }

    /// Look up an entry with exactly the point `p`: the first match in the
    /// bucket that `p` descends to, `None` when no entry has that point.
    fn search(&self, b: Boundry, p: Point) -> (r: Option<&T>)
        requires
            b.wf(),
            self.wf(b),
        ensures
            r is Some <==> has_point(self.entries(), p),
            r matches Some(v) ==> self.entries().contains((p, *v)),
        decreases b.size(),
    {
        match self {
            QuadTreeNode::Empty => None,
            QuadTreeNode::Bucket(v) => {
                let mut i: usize = 0;
                while i < v.len()
                    invariant
                        i <= v.len(),
                        self.entries() == v@,
                        forall|k: int| 0 <= k < i ==> (#[trigger] v@[k]).0 != p,
                    decreases v.len() - i,
                {
                    if v[i].0 == p {
                        proof {
                            assert(self.entries() == v@);
                            assert(v@[i as int].0 == p);
                            assert(has_point(v@, p));
                            assert((p, v@[i as int].1) == v@[i as int]);
                            assert(v@.contains(v@[i as int]));
                        }
                        return Some(&v[i].1);
                    }
                    i += 1;
                }
                None
            },
            QuadTreeNode::Internal(q) => {
                let (sub, index) = b.find_subarea(p);
                proof {
                    lemma_quad_wf(b, index as int);
                    lemma_quad_smaller(b, index as int);
                }
                let r = if index == 0 {
                    q.q0.search(sub, p)
                } else if index == 1 {
                    q.q1.search(sub, p)
                } else if index == 2 {
                    q.q2.search(sub, p)
                } else {
                    q.q3.search(sub, p)
                };
                proof {
                    let e0 = q.q0.entries();
                    let e1 = q.q1.entries();
                    let e2 = q.q2.entries();
                    let e3 = q.q3.entries();
                    lemma_has_point_concat(e0, e1, p);
                    lemma_has_point_concat(e0 + e1, e2, p);
                    lemma_has_point_concat(e0 + e1 + e2, e3, p);
                    if index != 0 {
                        lemma_no_point_other_quadrant(e0, b, 0, p);
                    }
                    if index != 1 {
                        lemma_no_point_other_quadrant(e1, b, 1, p);
                    }
                    if index != 2 {
                        lemma_no_point_other_quadrant(e2, b, 2, p);
                    }
                    if index != 3 {
                        lemma_no_point_other_quadrant(e3, b, 3, p);
                    }
                    if r is Some {
                        let v = r->0;
                        lemma_concat_contains(e0, e1, (p, *v));
                        lemma_concat_contains(e0 + e1, e2, (p, *v));
                        lemma_concat_contains(e0 + e1 + e2, e3, (p, *v));
                    }
                }
                r
            },
        }
    }

    /// All payloads below this node, in entry order.
    fn all_values(&self) -> (r: Vec<&T>)
        ensures
            deref_values(r@) == payloads(self.entries()),
        decreases self,
    {
        match self {
            QuadTreeNode::Empty => {
                let r: Vec<&T> = Vec::new();
                proof {
                    assert(deref_values(r@) =~= payloads(Seq::<(Point, T)>::empty()));
                }
                r
            },
            QuadTreeNode::Bucket(v) => {
                let mut r: Vec<&T> = Vec::new();
                let mut i: usize = 0;
                while i < v.len()
                    invariant
                        i <= v.len(),
                        r@.len() == i,
                        forall|k: int| 0 <= k < i ==> *(#[trigger] r@[k]) == v@[k].1,
                    decreases v.len() - i,
                {
                    r.push(&v[i].1);
                    i += 1;
                }
                proof {
                    assert(deref_values(r@) =~= payloads(v@)) by {
                        assert forall|k: int| 0 <= k < r@.len() implies deref_values(r@)[k]
                            == payloads(v@)[k] by {
                            assert(deref_values(r@)[k] == *r@[k]);
                            assert(payloads(v@)[k] == v@[k].1);
                        }
                    }
                }
                r
            },
            QuadTreeNode::Internal(q) => {
                let mut r = q.q0.all_values();
                let mut r1 = q.q1.all_values();
                let mut r2 = q.q2.all_values();
                let mut r3 = q.q3.all_values();
                proof {
                    let e0 = q.q0.entries();
                    let e1 = q.q1.entries();
                    let e2 = q.q2.entries();
                    let e3 = q.q3.entries();
                    lemma_payloads_concat(e0, e1);
                    lemma_payloads_concat(e0 + e1, e2);
                    lemma_payloads_concat(e0 + e1 + e2, e3);
                    lemma_deref_concat(r@, r1@);
                    lemma_deref_concat(r@ + r1@, r2@);
                    lemma_deref_concat(r@ + r1@ + r2@, r3@);
                }
                r.append(&mut r1);
                r.append(&mut r2);
                r.append(&mut r3);
                r
            },
        }
    }

    /// Every payload whose point lies in `search_area`, visiting only
    /// children whose quadrants can hold matches: a quadrant wholly inside
    /// the query is taken whole, one that does not overlap it is skipped.
    /// The result is exactly the brute-force filter of the node's entries.
    fn values_in_area(&self, own_area: Boundry, search_area: Boundry) -> (r: Vec<&T>)
        requires
            own_area.wf(),
            self.wf(own_area),
        ensures
            deref_values(r@) == payloads(restrict(self.entries(), search_area)),
        decreases own_area.size(), 0int,
    {
        match self {
            QuadTreeNode::Empty => {
                let r: Vec<&T> = Vec::new();
                proof {
                    lemma_restrict_none(Seq::<(Point, T)>::empty(), search_area);
                    assert(deref_values(r@) =~= payloads(Seq::<(Point, T)>::empty()));
                }
                r
            },
            QuadTreeNode::Bucket(v) => {
                let mut r: Vec<&T> = Vec::new();
                let mut i: usize = 0;
                proof {
                    lemma_restrict_none(v@.subrange(0, 0), search_area);
                    assert(deref_values(r@) =~= payloads(restrict(v@.subrange(0, 0), search_area)));
                }
                while i < v.len()
                    invariant
                        i <= v.len(),
                        self.entries() == v@,
                        deref_values(r@) == payloads(
                            restrict(v@.subrange(0, i as int), search_area),
                        ),
                    decreases v.len() - i,
                {
                    let ghost pre = v@.subrange(0, i as int);
                    if search_area.contains(v[i].0) {
                        r.push(&v[i].1);
                    }
                    i += 1;
                    proof {
                        broadcast use vstd::prelude::Seq::group_seq_extra;

                        let e = v@[i as int - 1];
                        assert(v@.subrange(0, i as int) =~= pre.push(e));
                        assert(deref_values(r@) =~= payloads(
                            restrict(v@.subrange(0, i as int), search_area),
                        ));
                    }
                }
                proof {
                    assert(v@.subrange(0, v@.len() as int) =~= v@);
                }
                r
            },
            QuadTreeNode::Internal(q) => {
                let subs = own_area.split();
                proof {
                    lemma_quad_wf(own_area, 0);
                    lemma_quad_wf(own_area, 1);
                    lemma_quad_wf(own_area, 2);
                    lemma_quad_wf(own_area, 3);
                    lemma_quad_smaller(own_area, 0);
                    lemma_quad_smaller(own_area, 1);
                    lemma_quad_smaller(own_area, 2);
                    lemma_quad_smaller(own_area, 3);
                }
                let mut r = Self::child_values(&q.q0, subs[0], search_area);
                let mut t1 = Self::child_values(&q.q1, subs[1], search_area);
                let mut t2 = Self::child_values(&q.q2, subs[2], search_area);
                let mut t3 = Self::child_values(&q.q3, subs[3], search_area);
                proof {
                    let e0 = q.q0.entries();
                    let e1 = q.q1.entries();
                    let e2 = q.q2.entries();
                    let e3 = q.q3.entries();
                    lemma_restrict_concat(e0, e1, search_area);
                    lemma_restrict_concat(e0 + e1, e2, search_area);
                    lemma_restrict_concat(e0 + e1 + e2, e3, search_area);
                    lemma_payloads_concat(restrict(e0, search_area), restrict(e1, search_area));
                    lemma_payloads_concat(
                        restrict(e0, search_area) + restrict(e1, search_area),
                        restrict(e2, search_area),
                    );
                    lemma_payloads_concat(
                        restrict(e0, search_area) + restrict(e1, search_area) + restrict(
                            e2,
                            search_area,
                        ),
                        restrict(e3, search_area),
                    );
                    lemma_deref_concat(r@, t1@);
                    lemma_deref_concat(r@ + t1@, t2@);
                    lemma_deref_concat(r@ + t1@ + t2@, t3@);
                }
                r.append(&mut t1);
                r.append(&mut t2);
                r.append(&mut t3);
                r
            },
        }
    }

    /// Collect from one child of an internal node: whole when its quadrant
    /// sits inside the query, filtered when the two merely overlap, and
    /// nothing when they are disjoint.
    fn child_values<'a>(child: &'a QuadTreeNode<T>, sub: Boundry, search_area: Boundry) -> (r: Vec<
        &'a T,
    >)
        requires
            sub.wf(),
            child.wf(sub),
        ensures
            deref_values(r@) == payloads(restrict(child.entries(), search_area)),
        decreases sub.size(), 1int,
    {
        if sub.completely_inside(search_area) {
            let t = child.all_values();
            proof {
                lemma_wf_entries_in(*child, sub);
                lemma_entries_into_outer(child.entries(), sub, search_area);
                lemma_restrict_all(child.entries(), search_area);
            }
            t
        } else if sub.overlaps(search_area) {
            child.values_in_area(sub, search_area)
        } else {
            let t: Vec<&T> = Vec::new();
            proof {
                lemma_wf_entries_in(*child, sub);
                assert forall|k: int| 0 <= k < child.entries().len() implies !search_area
                    .spec_contains((#[trigger] child.entries()[k]).0) by {
                    lemma_no_overlap_no_common_point(sub, search_area, child.entries()[k].0);
                }
                lemma_restrict_none(child.entries(), search_area);
                assert(deref_values(t@) =~= payloads(Seq::<(Point, T)>::empty()));
            }
            t
        }
    }


    /// Drain the node: consume it and hand back every entry it held,
    /// depth-first.
    fn take_entries(self) -> (r: Vec<(Point, T)>)
        ensures
            r@ == self.entries(),
        decreases self,
    {
        match self {
            QuadTreeNode::Empty => {
                let r: Vec<(Point, T)> = Vec::new();
                proof {
                    assert(r@ =~= Seq::<(Point, T)>::empty());
                }
                r
            },
            QuadTreeNode::Bucket(v) => v,
            QuadTreeNode::Internal(q) => {
                let quads = *q;
                let mut r = quads.q0.take_entries();
                let mut r1 = quads.q1.take_entries();
                let mut r2 = quads.q2.take_entries();
                let mut r3 = quads.q3.take_entries();
                r.append(&mut r1);
                r.append(&mut r2);
                r.append(&mut r3);
                r
            },
        }
    }
}

/// A point is found in a concatenation exactly when it is found in one of
/// the parts.
proof fn lemma_has_point_concat<T>(s1: Seq<(Point, T)>, s2: Seq<(Point, T)>, p: Point)
    ensures
        has_point(s1 + s2, p) <==> (has_point(s1, p) || has_point(s2, p)),
{
    if has_point(s1, p) {
        let k = choose|k: int| 0 <= k < s1.len() && (#[trigger] s1[k]).0 == p;
        assert((s1 + s2)[k] == s1[k]);
        assert(has_point(s1 + s2, p));
    }
    if has_point(s2, p) {
        let k = choose|k: int| 0 <= k < s2.len() && (#[trigger] s2[k]).0 == p;
        assert((s1 + s2)[s1.len() + k] == s2[k]);
        assert(has_point(s1 + s2, p));
    }
    if has_point(s1 + s2, p) {
        let k = choose|k: int| 0 <= k < (s1 + s2).len() && (#[trigger] (s1 + s2)[k]).0 == p;
        if k < s1.len() {
            assert(s1[k] == (s1 + s2)[k]);
            assert(has_point(s1, p));
        } else {
            assert(s2[k - s1.len()] == (s1 + s2)[k]);
            assert(has_point(s2, p));
        }
    }
}

/// An element is contained in a concatenation exactly when one of the
/// parts contains it.
proof fn lemma_concat_contains<A>(s1: Seq<A>, s2: Seq<A>, x: A)
    ensures
        (s1 + s2).contains(x) <==> (s1.contains(x) || s2.contains(x)),
{
    if s1.contains(x) {
        let k = choose|k: int| 0 <= k < s1.len() && s1[k] == x;
        assert((s1 + s2)[k] == s1[k]);
    }
    if s2.contains(x) {
        let k = choose|k: int| 0 <= k < s2.len() && s2[k] == x;
        assert((s1 + s2)[s1.len() + k] == s2[k]);
    }
    if (s1 + s2).contains(x) {
        let k = choose|k: int| 0 <= k < (s1 + s2).len() && (s1 + s2)[k] == x;
        if k < s1.len() {
            assert(s1[k] == x);
        } else {
            assert(s2[k - s1.len()] == x);
        }
    }
}

/// A sequence whose entries all sit in quadrant `i` of `b` holds no point
/// that `b` assigns to a different quadrant.
proof fn lemma_no_point_other_quadrant<T>(s: Seq<(Point, T)>, b: Boundry, i: int, p: Point)
    requires
        all_index(s, b, i),
        b.spec_index(p) != i,
    ensures
        !has_point(s, p),
{
    if has_point(s, p) {
        let k = choose|k: int| 0 <= k < s.len() && (#[trigger] s[k]).0 == p;
        assert(b.spec_index(s[k].0) == i);
    }
}

/// `payloads` distributes over concatenation.
proof fn lemma_payloads_concat<T>(a: Seq<(Point, T)>, b: Seq<(Point, T)>)
    ensures
        payloads(a + b) == payloads(a) + payloads(b),
{
    assert(payloads(a + b) =~= payloads(a) + payloads(b));
}

/// `deref_values` distributes over concatenation.
proof fn lemma_deref_concat<T>(a: Seq<&T>, b: Seq<&T>)
    ensures
        deref_values(a + b) == deref_values(a) + deref_values(b),
{
    assert(deref_values(a + b) =~= deref_values(a) + deref_values(b));
}

/// `restrict` keeps a sequence whole when every entry lies in the area.
proof fn lemma_restrict_all<T>(s: Seq<(Point, T)>, area: Boundry)
    requires
        all_in(s, area),
    ensures
        restrict(s, area) == s,
    decreases s.len(),
{
    reveal(Seq::filter);
    if s.len() == 0 {
        assert(restrict(s, area) =~= s);
    } else {
        let rest = s.drop_last();
        assert forall|k: int| 0 <= k < rest.len() implies area.spec_contains(
            (#[trigger] rest[k]).0,
        ) by {
            assert(rest[k] == s[k]);
        }
        lemma_restrict_all(rest, area);
        assert(area.spec_contains(s.last().0));
        assert(restrict(s, area) == rest.push(s.last()));
        assert(rest.push(s.last()) =~= s);
    }
}

/// `restrict` drops a sequence entirely when no entry lies in the area.
proof fn lemma_restrict_none<T>(s: Seq<(Point, T)>, area: Boundry)
    requires
        forall|k: int| 0 <= k < s.len() ==> !area.spec_contains((#[trigger] s[k]).0),
    ensures
        restrict(s, area) == Seq::<(Point, T)>::empty(),
    decreases s.len(),
{
    reveal(Seq::filter);
    if s.len() == 0 {
        assert(restrict(s, area) =~= Seq::<(Point, T)>::empty());
    } else {
        let rest = s.drop_last();
        assert forall|k: int| 0 <= k < rest.len() implies !area.spec_contains(
            (#[trigger] rest[k]).0,
        ) by {
            assert(rest[k] == s[k]);
        }
        lemma_restrict_none(rest, area);
        assert(!area.spec_contains(s.last().0));
    }
}

/// `restrict` distributes over concatenation.
proof fn lemma_restrict_concat<T>(a: Seq<(Point, T)>, b: Seq<(Point, T)>, area: Boundry)
    ensures
        restrict(a + b, area) == restrict(a, area) + restrict(b, area),
{
    broadcast use vstd::seq_lib::group_seq_lib_default;

    assert(restrict(a + b, area) == restrict(a, area) + restrict(b, area));
}

/// Entries inside an inner rectangle are inside any rectangle enclosing it.
proof fn lemma_entries_into_outer<T>(s: Seq<(Point, T)>, inner: Boundry, outer: Boundry)
    requires
        all_in(s, inner),
        inner.spec_completely_inside(outer),
    ensures
        all_in(s, outer),
{
    assert forall|k: int| 0 <= k < s.len() implies outer.spec_contains((#[trigger] s[k]).0) by {
        lemma_inside_transfers(inner, outer, s[k].0);
    }
}

/// Root of the quadtree: the fixed universe rectangle and the root node.
/// `entries()` — the flat sequence of stored (point, payload) pairs — is
/// the model every operation's contract speaks of.
pub struct QuadTree<T> {
    boundry: Boundry,
    node: QuadTreeNode<T>,
}

impl<T> QuadTree<T> {
    /// The universe the index was built over; it never changes in place.
    pub closed spec fn universe(self) -> Boundry {
        self.boundry
    }

    /// The model: every stored (point, payload) entry, depth-first.
    pub closed spec fn entries(self) -> Seq<(Point, T)> {
        self.node.entries()
    }

    /// The tree's invariant: the universe is a well-formed rectangle and
    /// every node holds only entries of its own region, each filed under
    /// the quadrant index its point is assigned.
    pub closed spec fn wf(self) -> bool {
        &&& self.boundry.wf()
        &&& self.node.wf(self.boundry)
    }

    /// An empty index over the given universe.
    pub fn new(boundry: Boundry) -> (r: Self)
        requires
            boundry.wf(),
        ensures
            r.wf(),
            r.universe() == boundry,
            r.entries() == Seq::<(Point, T)>::empty(),
    {
        QuadTree { boundry, node: QuadTreeNode::Empty }
    }

    /// Whether the universe contains the point.
    pub fn contains(&self, p: Point) -> (r: bool)
        ensures
            r == self.universe().spec_contains(p),
    {
        self.boundry.contains(p)
    }

    /// Store a payload at a coordinate. Rejects coordinates outside the
    /// universe and leaves the index unchanged in that case; otherwise the
    /// stored entries grow by exactly the new pair. Entries with equal
    /// coordinates accumulate — nothing is overwritten.
    pub fn append_point(&mut self, coords: Point, data: T) -> (r: Result<(), OutOfBounds>)
        requires
            old(self).wf(),
        ensures
            final(self).wf(),
            final(self).universe() == old(self).universe(),
            r is Ok <==> old(self).universe().spec_contains(coords),
            r is Ok ==> final(self).entries().to_multiset() == old(self).entries().to_multiset()
                .insert((coords, data)),
            r is Err ==> *final(self) == *old(self),
    {
        if !self.boundry.contains(coords) {
            return Err(OutOfBounds);
        }
        let mut node = QuadTreeNode::Empty;
        core::mem::swap(&mut self.node, &mut node);
        let node = node.insert(self.boundry, coords, data);
        self.node = node;
        Ok(())
    }

    /// Exact-point lookup: `Some` exactly when some entry has this point
    /// (so always `None` outside the universe), and the payload returned
    /// is one stored at this point. With no duplicate inserts at one
    /// coordinate, that pins the result down completely.
    pub fn search(&self, p: Point) -> (r: Option<&T>)
        requires
            self.wf(),
        ensures
            r is Some <==> has_point(self.entries(), p),
            r matches Some(v) ==> self.entries().contains((p, *v)),
    {
        if !self.boundry.contains(p) {
            proof {
                lemma_wf_entries_in(self.node, self.boundry);
                if has_point(self.node.entries(), p) {
                    let s = self.node.entries();
                    let k = choose|k: int| 0 <= k < s.len() && (#[trigger] s[k]).0 == p;
                    assert(self.boundry.spec_contains(s[k].0));
                }
            }
            return None;
        }
        self.node.search(self.boundry, p)
    }

    /// Range query: the payloads of exactly those entries whose points lie
    /// in `search_area` (inclusive bounds), as a brute-force scan of all
    /// entries would find them, whatever the internal tree shape.
    pub fn values_in_area(&self, search_area: Boundry) -> (r: Vec<&T>)
        requires
            self.wf(),
        ensures
            deref_values(r@) == payloads(restrict(self.entries(), search_area)),
    {
        self.node.values_in_area(self.boundry, search_area)
    }

    /// Drain: consume the index and hand back every stored entry, for
    /// callers that migrate the data elsewhere.
    pub fn into_entries(self) -> (r: Vec<(Point, T)>)
        ensures
            r@ == self.entries(),
    {
        let QuadTree { boundry: _, node } = self;
        node.take_entries()
    }

    /// Rebuild the index under a new universe: drain every entry and
    /// re-insert it. An entry whose point falls outside the new universe
    /// is silently dropped — the result holds exactly the entries the new
    /// universe contains. Growing the universe loses nothing (see
    /// `lemma_rebuild_preserves`).
    pub fn rebuild(self, new_boundry: Boundry) -> (r: QuadTree<T>)
        requires
            self.wf(),
            new_boundry.wf(),
        ensures
            r.wf(),
            r.universe() == new_boundry,
            r.entries().to_multiset() == restrict(self.entries(), new_boundry).to_multiset(),
    {
        let ghost orig = self.entries();
        let mut items = self.into_entries();
        let mut result = QuadTree::new(new_boundry);
        proof {
            assert(result.entries().to_multiset().add(
                restrict(items@, new_boundry).to_multiset(),
            ) =~= restrict(orig, new_boundry).to_multiset());
        }
        while items.len() > 0
            invariant
                result.wf(),
                result.universe() == new_boundry,
                new_boundry.wf(),
                result.entries().to_multiset().add(restrict(items@, new_boundry).to_multiset())
                    == restrict(orig, new_boundry).to_multiset(),
            decreases items.len(),
        {
            let ghost prev = items@;
            let e = items.pop().unwrap();
            let appended = result.append_point(e.0, e.1);
            proof {
                broadcast use vstd::prelude::Seq::group_seq_extra;

                assert(prev =~= items@.push(e));
                assert(e == (e.0, e.1));
                if new_boundry.spec_contains(e.0) {
                    assert(appended is Ok);
                    assert(restrict(prev, new_boundry) == restrict(items@, new_boundry).push(e));
                    assert(restrict(items@, new_boundry).push(e).to_multiset() == restrict(
                        items@,
                        new_boundry,
                    ).to_multiset().insert(e));
                } else {
                    assert(appended is Err);
                    assert(restrict(prev, new_boundry) == restrict(items@, new_boundry));
                }
                assert(result.entries().to_multiset().add(
                    restrict(items@, new_boundry).to_multiset(),
                ) =~= restrict(orig, new_boundry).to_multiset());
            }
        }
        proof {
            assert(items@ =~= Seq::<(Point, T)>::empty());
            lemma_restrict_none(items@, new_boundry);
            assert(result.entries().to_multiset() =~= restrict(orig, new_boundry).to_multiset());
        }
        result
    }
}

/// Every stored entry lies in the universe.
pub proof fn lemma_entries_in_universe<T>(t: QuadTree<T>)
    requires
        t.wf(),
    ensures
        all_in(t.entries(), t.universe()),
{
    lemma_wf_entries_in(t.node, t.boundry);
}

/// Round trip. After an append of `(p, v)` — which leaves the entries'
/// multiset grown by exactly that pair — the point `p` is present, and if
/// `p` was absent before, `v` is the only payload stored at `p`. Together
/// with the contract of `search`, `search(p)` then returns `Some(v)`.
pub proof fn lemma_round_trip<T>(pre: QuadTree<T>, post: QuadTree<T>, p: Point, v: T)
    requires
        post.entries().to_multiset() == pre.entries().to_multiset().insert((p, v)),
    ensures
        has_point(post.entries(), p),
        !has_point(pre.entries(), p) ==> forall|w: T|
            post.entries().contains((p, w)) ==> w == v,
{
    let s = post.entries();
    assert(s.to_multiset().count((p, v)) > 0);
    assert(s.contains((p, v)));
    let k = choose|k: int| 0 <= k < s.len() && s[k] == (p, v);
    assert((#[trigger] s[k]).0 == p);
    if !has_point(pre.entries(), p) {
        assert forall|w: T| post.entries().contains((p, w)) implies w == v by {
            if (p, w) != (p, v) {
                assert(s.to_multiset().count((p, w)) > 0);
                assert(pre.entries().to_multiset().count((p, w)) > 0);
                assert(pre.entries().contains((p, w)));
                let t = pre.entries();
                let j = choose|j: int| 0 <= j < t.len() && t[j] == (p, w);
                assert((#[trigger] t[j]).0 == p);
            }
        }
    }
}

/// Negative lookup. Appending an entry at a different coordinate never
/// makes a missing point present, so `search(p)` keeps returning `None`
/// for every point that was never inserted.
pub proof fn lemma_negative_lookup<T>(
    pre: QuadTree<T>,
    post: QuadTree<T>,
    q: Point,
    w: T,
    p: Point,
)
    requires
        post.entries().to_multiset() == pre.entries().to_multiset().insert((q, w)),
        p != q,
        !has_point(pre.entries(), p),
    ensures
        !has_point(post.entries(), p),
{
    if has_point(post.entries(), p) {
        let s = post.entries();
        let k = choose|k: int| 0 <= k < s.len() && (#[trigger] s[k]).0 == p;
        assert(s.contains(s[k]));
        assert(s.to_multiset().count(s[k]) > 0);
        assert(s[k] != (q, w));
        assert(pre.entries().to_multiset().count(s[k]) > 0);
        assert(pre.entries().contains(s[k]));
        let t = pre.entries();
        let j = choose|j: int| 0 <= j < t.len() && t[j] == s[k];
        assert((#[trigger] t[j]).0 == p);
    }
}

/// Full-domain query: restricting the entries to the universe itself keeps
/// every one of them, so `values_in_area(universe)` returns all stored
/// payloads.
pub proof fn lemma_full_domain<T>(t: QuadTree<T>)
    requires
        t.wf(),
    ensures
        restrict(t.entries(), t.universe()) == t.entries(),
{
    lemma_wf_entries_in(t.node, t.boundry);
    lemma_restrict_all(t.entries(), t.boundry);
}

/// Rebuilding into a universe that completely contains the old one keeps
/// the multiset of (point, payload) entries exactly: nothing is dropped.
pub proof fn lemma_rebuild_preserves<T>(t: QuadTree<T>, new_boundry: Boundry)
    requires
        t.wf(),
        t.universe().spec_completely_inside(new_boundry),
    ensures
        restrict(t.entries(), new_boundry) == t.entries(),
{
    lemma_wf_entries_in(t.node, t.boundry);
    lemma_entries_into_outer(t.entries(), t.boundry, new_boundry);
    lemma_restrict_all(t.entries(), new_boundry);
}

} // verus!
