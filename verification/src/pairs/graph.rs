//! The candidate pair graph: unordered image pairs, each kept once.

use vstd::prelude::*;
use crate::text::{lemma_lex_asymmetric, lemma_lex_irreflexive, lex_lt, string_from_chars};
use crate::pairs::names::{image_name_order, name_views};

verus! {

/// Why a pair was proposed, as a set of flags.
#[derive(Debug, Clone, Copy, PartialEq, Eq)]
pub struct PairSource {
    pub bits: u32,
}

impl PairSource {
    /// Neighbouring frames of the same lens.
    pub fn temporal() -> (s: PairSource)
        ensures
            s.bits == 1,
    {
        PairSource { bits: 1 }
    }

    /// Overlapping view directions.
    pub fn geometry() -> (s: PairSource)
        ensures
            s.bits == 2,
    {
        PairSource { bits: 2 }
    }

    /// A pair across the two lenses.
    pub fn cross_lens() -> (s: PairSource)
        ensures
            s.bits == 4,
    {
        PairSource { bits: 4 }
    }

    /// A revisit of an earlier place.
    pub fn loop_closure() -> (s: PairSource)
        ensures
            s.bits == 8,
    {
        PairSource { bits: 8 }
    }

    /// Added to keep the graph connected.
    pub fn safety() -> (s: PairSource)
        ensures
            s.bits == 16,
    {
        PairSource { bits: 16 }
    }

    /// The flags of both.
    pub fn union(self, other: PairSource) -> (s: PairSource)
        ensures
            s.bits == self.bits | other.bits,
    {
        PairSource { bits: self.bits | other.bits }
    }

    /// Every flag of `other` is set in `self`.
    pub fn contains(self, other: PairSource) -> (b: bool)
        ensures
            b == (self.bits & other.bits == other.bits),
    {
        self.bits & other.bits == other.bits
    }
}

/// A union holds the flags of both of its parts.
pub proof fn lemma_union_contains(a: PairSource, b: PairSource)
    ensures
        (a.bits | b.bits) & a.bits == a.bits,
        (a.bits | b.bits) & b.bits == b.bits,
{
    let x = a.bits;
    let y = b.bits;
    assert((x | y) & x == x) by (bit_vector);
    assert((x | y) & y == y) by (bit_vector);
}

/// One candidate pair: the two image names, why it was proposed, and the data the
/// caller keeps with it (scores and the like).
#[derive(Debug, Clone)]
pub struct CandidateEdge<P> {
    pub image_a: String,
    pub image_b: String,
    pub source: PairSource,
    pub data: P,
}

/// The two pairs join the same two images, in either order.
pub open spec fn same_images<P>(e: CandidateEdge<P>, f: CandidateEdge<P>) -> bool {
    (e.image_a@ == f.image_a@ && e.image_b@ == f.image_b@) || (e.image_a@ == f.image_b@ && e.image_b@
        == f.image_a@)
}

/// Some pair in `pairs` joins the same two images as `p`.
pub open spec fn has_pair_for<P>(pairs: Seq<CandidateEdge<P>>, p: CandidateEdge<P>) -> bool {
    exists|i: int| 0 <= i < pairs.len() && same_images(#[trigger] pairs[i], p)
}

/// No two pairs of `pairs` join the same two images.
pub open spec fn pairs_distinct<P>(pairs: Seq<CandidateEdge<P>>) -> bool {
    forall|i: int, j: int|
        0 <= i < pairs.len() && 0 <= j < pairs.len() && i != j ==> !same_images(
            #[trigger] pairs[i],
            #[trigger] pairs[j],
        )
}

/// The pairs after adding `p`: unchanged when a pair already joins the same two
/// images, otherwise `p` appended.
pub open spec fn pairs_after_add<P>(pairs: Seq<CandidateEdge<P>>, p: CandidateEdge<P>) -> Seq<
    CandidateEdge<P>,
> {
    if has_pair_for(pairs, p) {
        pairs
    } else {
        pairs.push(p)
    }
}

/// Adding keeps the graph free of repeated pairs.
pub proof fn lemma_add_keeps_pairs_distinct<P>(pairs: Seq<CandidateEdge<P>>, p: CandidateEdge<P>)
    requires
        pairs_distinct(pairs),
    ensures
        pairs_distinct(pairs_after_add(pairs, p)),
{
    if !has_pair_for(pairs, p) {
        let q = pairs.push(p);
        assert forall|i: int, j: int|
            0 <= i < q.len() && 0 <= j < q.len() && i != j implies !same_images(
            #[trigger] q[i],
            #[trigger] q[j],
        ) by {
            if i == pairs.len() {
                assert(!same_images(pairs[j], p));
            } else if j == pairs.len() {
                assert(!same_images(pairs[i], p));
            } else {
                assert(q[i] == pairs[i] && q[j] == pairs[j]);
            }
        }
    }
}

/// After adding, the graph joins the pair's two images.
pub proof fn lemma_add_includes_pair<P>(pairs: Seq<CandidateEdge<P>>, p: CandidateEdge<P>)
    ensures
        has_pair_for(pairs_after_add(pairs, p), p),
{
    if !has_pair_for(pairs, p) {
        let q = pairs.push(p);
        assert(same_images(q[pairs.len() as int], p));
    }
}

/// Adding the same pair again, in either orientation, changes nothing.
pub proof fn lemma_add_idempotent<P>(pairs: Seq<CandidateEdge<P>>, p: CandidateEdge<P>, p2: CandidateEdge<P>)
    requires
        same_images(p, p2),
    ensures
        pairs_after_add(pairs_after_add(pairs, p), p2) == pairs_after_add(pairs, p),
{
    lemma_add_includes_pair(pairs, p);
    let q = pairs_after_add(pairs, p);
    let i = choose|i: int| 0 <= i < q.len() && same_images(#[trigger] q[i], p);
    assert(same_images(q[i], p2));
}

/// Edge `e` joins the images named `a` and `b`, in either order.
pub open spec fn joins<P>(e: CandidateEdge<P>, a: Seq<char>, b: Seq<char>) -> bool {
    (e.image_a@ == a && e.image_b@ == b) || (e.image_a@ == b && e.image_b@ == a)
}

/// Some pair of `pairs` joins the images named `a` and `b`.
pub open spec fn has_pair_between<P>(pairs: Seq<CandidateEdge<P>>, a: Seq<char>, b: Seq<char>) -> bool {
    exists|i: int| 0 <= i < pairs.len() && joins(#[trigger] pairs[i], a, b)
}

/// `s` names one of the two images of some pair of `pairs`.
pub open spec fn names_image<P>(pairs: Seq<CandidateEdge<P>>, s: Seq<char>) -> bool {
    exists|i: int| 0 <= i < pairs.len() && ((#[trigger] pairs[i]).image_a@ == s || pairs[i].image_b@ == s)
}

/// Each name of `q` sorts strictly before every later one (so none occurs twice).
pub open spec fn strictly_sorted(q: Seq<Seq<char>>) -> bool {
    forall|i: int, j: int| 0 <= i < j < q.len() ==> lex_lt(#[trigger] q[i], #[trigger] q[j])
}

/// `q` lists every image name of `pairs` once, in increasing `String` order.
pub open spec fn is_name_order<P>(pairs: Seq<CandidateEdge<P>>, q: Seq<Seq<char>>) -> bool {
    &&& strictly_sorted(q)
    &&& forall|s: Seq<char>| q.contains(s) <==> names_image(pairs, s)
}

/// The image names of `pairs` in increasing `String` order. With zero-padded frame
/// numbers under one directory per lens this is frame order within each lens.
pub open spec fn name_order<P>(pairs: Seq<CandidateEdge<P>>) -> Seq<Seq<char>> {
    choose|q: Seq<Seq<char>>| is_name_order(pairs, q)
}

/// Position `j` of an order of `n` names is one of the `min_prev` nearest before
/// position `i`, or one of the `min_next` nearest after it.
pub open spec fn in_window(n: int, i: int, j: int, min_prev: int, min_next: int) -> bool {
    &&& 0 <= i < n
    &&& 0 <= j < n
    &&& ((j < i && i - j <= min_prev) || (i < j && j - i <= min_next))
}

/// Pair `k` of `pairs` is a safety edge for the name order `q`: flagged `SAFETY`,
/// carrying `data`, not joining two images an earlier pair already joins, and going
/// from an image to one within its window.
pub open spec fn is_safety_edge<P>(
    pairs: Seq<CandidateEdge<P>>,
    k: int,
    q: Seq<Seq<char>>,
    min_prev: int,
    min_next: int,
    data: P,
) -> bool {
    &&& pairs[k].source.bits == 16
    &&& pairs[k].data == data
    &&& !has_pair_for(pairs.subrange(0, k), pairs[k])
    &&& exists|i: int, j: int|
        #[trigger] in_window(q.len() as int, i, j, min_prev, min_next) && pairs[k].image_a@ == q[i] && pairs[k].image_b@ == q[j]
}

/// `new` is `old` followed by safety edges only.
pub open spec fn extends_with_safety<P>(
    old: Seq<CandidateEdge<P>>,
    new: Seq<CandidateEdge<P>>,
    q: Seq<Seq<char>>,
    min_prev: int,
    min_next: int,
    data: P,
) -> bool {
    &&& old.len() <= new.len()
    &&& new.subrange(0, old.len() as int) == old
    &&& forall|k: int| old.len() <= k < new.len() ==> #[trigger] is_safety_edge(new, k, q, min_prev, min_next, data)
}

/// Adding never loses a pair between two images.
proof fn lemma_add_keeps_between<P>(pairs: Seq<CandidateEdge<P>>, p: CandidateEdge<P>, a: Seq<char>, b: Seq<char>)
    requires
        has_pair_between(pairs, a, b),
    ensures
        has_pair_between(pairs_after_add(pairs, p), a, b),
{
    let i = choose|i: int| 0 <= i < pairs.len() && joins(#[trigger] pairs[i], a, b);
    let q = pairs_after_add(pairs, p);
    assert(q[i] == pairs[i]);
}

/// After adding an edge from `a` to `b`, the graph joins `a` and `b`.
proof fn lemma_add_joins<P>(pairs: Seq<CandidateEdge<P>>, p: CandidateEdge<P>)
    ensures
        has_pair_between(pairs_after_add(pairs, p), p.image_a@, p.image_b@),
{
    lemma_add_includes_pair(pairs, p);
    let q = pairs_after_add(pairs, p);
    let i = choose|i: int| 0 <= i < q.len() && same_images(#[trigger] q[i], p);
    assert(joins(q[i], p.image_a@, p.image_b@));
}

/// Adding a safety edge keeps the graph an extension by safety edges.
proof fn lemma_add_safety<P>(
    old: Seq<CandidateEdge<P>>,
    cur: Seq<CandidateEdge<P>>,
    p: CandidateEdge<P>,
    q: Seq<Seq<char>>,
    min_prev: int,
    min_next: int,
    data: P,
    i: int,
    j: int,
)
    requires
        extends_with_safety(old, cur, q, min_prev, min_next, data),
        p.source.bits == 16,
        p.data == data,
        in_window(q.len() as int, i, j, min_prev, min_next),
        p.image_a@ == q[i],
        p.image_b@ == q[j],
    ensures
        extends_with_safety(old, pairs_after_add(cur, p), q, min_prev, min_next, data),
{
    let nw = pairs_after_add(cur, p);
    if !has_pair_for(cur, p) {
        assert(nw.subrange(0, old.len() as int) =~= cur.subrange(0, old.len() as int));
        assert forall|k: int| old.len() <= k < nw.len() implies #[trigger] is_safety_edge(nw, k, q, min_prev, min_next, data) by {
            if k < cur.len() {
                assert(is_safety_edge(cur, k, q, min_prev, min_next, data));
                assert(nw.subrange(0, k) =~= cur.subrange(0, k));
                assert(nw[k] == cur[k]);
            } else {
                assert(nw.subrange(0, k) =~= cur);
                assert(nw[k] == p);
            }
        }
    }
}

/// Two strictly sorted name lists with the same names are equal.
pub(crate) proof fn lemma_sorted_unique(q1: Seq<Seq<char>>, q2: Seq<Seq<char>>)
    requires
        strictly_sorted(q1),
        strictly_sorted(q2),
        forall|s: Seq<char>| q1.contains(s) <==> q2.contains(s),
    ensures
        q1 == q2,
    decreases q1.len(),
{
    if q1.len() == 0 {
        if q2.len() > 0 {
            assert(q2.contains(q2[0]));
        }
        assert(q1 =~= q2);
    } else {
        assert(q1.contains(q1[0]));
        assert(q2.len() > 0);
        assert(q2.contains(q2[0]));
        let j = choose|j: int| 0 <= j < q2.len() && q2[j] == q1[0];
        let m = choose|m: int| 0 <= m < q1.len() && q1[m] == q2[0];
        if j > 0 {
            assert(lex_lt(q2[0], q2[j]));
            if m > 0 {
                assert(lex_lt(q1[0], q1[m]));
                lemma_lex_asymmetric(q1[0], q2[0]);
            } else {
                lemma_lex_irreflexive(q2[0]);
            }
        }
        assert(q1[0] == q2[0]);
        let r1 = q1.drop_first();
        let r2 = q2.drop_first();
        assert forall|s: Seq<char>| r1.contains(s) <==> r2.contains(s) by {
            if r1.contains(s) {
                let a = choose|a: int| 0 <= a < r1.len() && r1[a] == s;
                assert(q1[a + 1] == s);
                assert(lex_lt(q1[0], q1[a + 1]));
                assert(q1.contains(s));
                let b = choose|b: int| 0 <= b < q2.len() && q2[b] == s;
                if b == 0 {
                    lemma_lex_irreflexive(s);
                }
                assert(r2[b - 1] == s);
            }
            if r2.contains(s) {
                let a = choose|a: int| 0 <= a < r2.len() && r2[a] == s;
                assert(q2[a + 1] == s);
                assert(lex_lt(q2[0], q2[a + 1]));
                assert(q2.contains(s));
                let b = choose|b: int| 0 <= b < q1.len() && q1[b] == s;
                if b == 0 {
                    lemma_lex_irreflexive(s);
                }
                assert(r1[b - 1] == s);
            }
        }
        assert forall|a: int, b: int| 0 <= a < b < r1.len() implies lex_lt(#[trigger] r1[a], #[trigger] r1[b]) by {
            assert(r1[a] == q1[a + 1] && r1[b] == q1[b + 1]);
        }
        assert forall|a: int, b: int| 0 <= a < b < r2.len() implies lex_lt(#[trigger] r2[a], #[trigger] r2[b]) by {
            assert(r2[a] == q2[a + 1] && r2[b] == q2[b + 1]);
        }
        lemma_sorted_unique(r1, r2);
        assert(q1 =~= seq![q1[0]] + r1);
        assert(q2 =~= seq![q2[0]] + r2);
    }
}

/// The graph of candidate pairs, in insertion order.
pub struct PairGraph<P> {
    pub pairs: Vec<CandidateEdge<P>>,
}

/// Counts of pairs per source.
#[derive(Debug, Clone)]
pub struct GraphDiagnostics {
    pub total_pairs: usize,
    /// `(source flags, number of pairs with exactly those flags)`, each flags value
    /// once, in order of first appearance.
    pub by_source: Vec<(u32, usize)>,
}

/// The number of pairs in `pairs` whose flags are exactly `bits`.
pub open spec fn count_source<P>(pairs: Seq<CandidateEdge<P>>, bits: u32) -> nat
    decreases pairs.len(),
{
    if pairs.len() == 0 {
        0
    } else {
        count_source(pairs.drop_last(), bits) + if pairs.last().source.bits == bits {
            1nat
        } else {
            0nat
        }
    }
}

/// Some entry of `s` is for the flags `bits`.
pub open spec fn lists_source(s: Seq<(u32, usize)>, bits: u32) -> bool {
    exists|i: int| 0 <= i < s.len() && (#[trigger] s[i]).0 == bits
}

/// `d` counts the pairs of `pairs` by source.
pub open spec fn is_diagnostics_of<P>(d: GraphDiagnostics, pairs: Seq<CandidateEdge<P>>) -> bool {
    let s = d.by_source@;
    &&& d.total_pairs == pairs.len()
    &&& forall|i: int, j: int| 0 <= i < j < s.len() ==> (#[trigger] s[i]).0 != (#[trigger] s[j]).0
    &&& forall|i: int| 0 <= i < s.len() ==> (#[trigger] s[i]).1 == count_source(pairs, s[i].0)
    &&& forall|k: int| 0 <= k < pairs.len() ==> lists_source(s, (#[trigger] pairs[k]).source.bits)
}

impl<P> PairGraph<P> {
    /// An empty graph.
    pub fn new() -> (g: Self)
        ensures
            g.pairs@.len() == 0,
    {
        PairGraph { pairs: Vec::new() }
    }

    /// Adds a pair unless the graph already joins the same two images (in either order).
    pub fn add(&mut self, p: CandidateEdge<P>)
        ensures
            final(self).pairs@ == pairs_after_add(old(self).pairs@, p),
    {
        let mut i: usize = 0;
        while i < self.pairs.len()
            invariant
                i <= self.pairs@.len(),
                self.pairs@ == old(self).pairs@,
                forall|k: int| 0 <= k < i ==> !same_images(#[trigger] self.pairs@[k], p),
            decreases self.pairs@.len() - i,
        {
            let e = &self.pairs[i];
            if (e.image_a == p.image_a && e.image_b == p.image_b) || (e.image_a == p.image_b
                && e.image_b == p.image_a) {
                assert(same_images(self.pairs@[i as int], p));
                return;
            }
            i = i + 1;
        }
        self.pairs.push(p);
    }

    /// Keeps every image connected to its neighbours: with the images of the graph in
    /// increasing name order, each image gets a pair with each of its `min_prev` nearest
    /// predecessors and `min_next` nearest successors (as far as they exist). Missing
    /// pairs are appended as safety edges carrying `safety_data`; existing pairs stay
    /// as they are, in front.
    pub fn ensure_connectivity(&mut self, min_prev: usize, min_next: usize, safety_data: P)
        where P: Copy
        ensures
            extends_with_safety(
                old(self).pairs@,
                final(self).pairs@,
                name_order(old(self).pairs@),
                min_prev as int,
                min_next as int,
                safety_data,
            ),
            forall|i: int, j: int|
                #[trigger] in_window(name_order(old(self).pairs@).len() as int, i, j, min_prev as int, min_next as int)
                    ==> has_pair_between(final(self).pairs@, name_order(old(self).pairs@)[i], name_order(old(self).pairs@)[j]),
    {
        let ghost old_pairs = self.pairs@;
        let q = image_name_order(&self.pairs);
        let ghost qs = name_views(q@);
        let n = q.len();
        let mut i: usize = 0;
        assert(self.pairs@.subrange(0, old_pairs.len() as int) =~= old_pairs);
        while i < n
            invariant
                n == q@.len(),
                qs == name_views(q@),
                qs == name_order(old_pairs),
                i <= n,
                extends_with_safety(old_pairs, self.pairs@, qs, min_prev as int, min_next as int, safety_data),
                forall|a: int, b: int|
                    #[trigger] in_window(n as int, a, b, min_prev as int, min_next as int) && a < i
                        ==> has_pair_between(self.pairs@, qs[a], qs[b]),
            decreases n - i,
        {
            let mut t: usize = 1;
            while t <= min_prev && t <= i
                invariant
                    n == q@.len(),
                    qs == name_views(q@),
                    i < n,
                    1 <= t,
                    t <= i + 1,
                    extends_with_safety(old_pairs, self.pairs@, qs, min_prev as int, min_next as int, safety_data),
                    forall|a: int, b: int|
                        #[trigger] in_window(n as int, a, b, min_prev as int, min_next as int) && (a < i || (a == i && b < i && i - b < t))
                            ==> has_pair_between(self.pairs@, qs[a], qs[b]),
                decreases i + 1 - t,
            {
                let e = CandidateEdge {
                    image_a: string_from_chars(&q[i]),
                    image_b: string_from_chars(&q[i - t]),
                    source: PairSource::safety(),
                    data: safety_data,
                };
                let ghost cur = self.pairs@;
                proof {
                    assert(qs[i as int] == q@[i as int]@);
                    assert(qs[i - t] == q@[i - t]@);
                    assert(in_window(n as int, i as int, i - t, min_prev as int, min_next as int));
                    lemma_add_safety(old_pairs, cur, e, qs, min_prev as int, min_next as int, safety_data, i as int, i - t);
                }
                self.add(e);
                proof {
                    lemma_add_joins(cur, e);
                    assert forall|a: int, b: int|
                        #[trigger] in_window(n as int, a, b, min_prev as int, min_next as int) && (a < i || (a == i && b < i && i - b < t + 1))
                            implies has_pair_between(self.pairs@, qs[a], qs[b]) by {
                        if a < i || (a == i && b < i && i - b < t) {
                            lemma_add_keeps_between(cur, e, qs[a], qs[b]);
                        }
                    }
                }
                t = t + 1;
            }
            let mut t: usize = 1;
            while t <= min_next && t < n - i
                invariant
                    n == q@.len(),
                    qs == name_views(q@),
                    i < n,
                    1 <= t,
                    t <= n - i,
                    extends_with_safety(old_pairs, self.pairs@, qs, min_prev as int, min_next as int, safety_data),
                    forall|a: int, b: int|
                        #[trigger] in_window(n as int, a, b, min_prev as int, min_next as int) && (a < i || (a == i && (b < i || b - i < t)))
                            ==> has_pair_between(self.pairs@, qs[a], qs[b]),
                decreases n - i - t,
            {
                let e = CandidateEdge {
                    image_a: string_from_chars(&q[i]),
                    image_b: string_from_chars(&q[i + t]),
                    source: PairSource::safety(),
                    data: safety_data,
                };
                let ghost cur = self.pairs@;
                proof {
                    assert(qs[i as int] == q@[i as int]@);
                    assert(qs[i + t] == q@[i + t]@);
                    assert(in_window(n as int, i as int, i + t, min_prev as int, min_next as int));
                    lemma_add_safety(old_pairs, cur, e, qs, min_prev as int, min_next as int, safety_data, i as int, i + t);
                }
                self.add(e);
                proof {
                    lemma_add_joins(cur, e);
                    assert forall|a: int, b: int|
                        #[trigger] in_window(n as int, a, b, min_prev as int, min_next as int) && (a < i || (a == i && (b < i || b - i < t + 1)))
                            implies has_pair_between(self.pairs@, qs[a], qs[b]) by {
                        if a < i || (a == i && (b < i || b - i < t)) {
                            lemma_add_keeps_between(cur, e, qs[a], qs[b]);
                        }
                    }
                }
                t = t + 1;
            }
            i = i + 1;
        }
    }

    /// The number of pairs, in total and per source.
    pub fn diagnostics(&self) -> (d: GraphDiagnostics)
        ensures
            is_diagnostics_of(d, self.pairs@),
    {
        let ghost pairs = self.pairs@;
        let mut by_source: Vec<(u32, usize)> = Vec::new();
        let mut k: usize = 0;
        while k < self.pairs.len()
            invariant
                pairs == self.pairs@,
                k <= pairs.len(),
                by_source@.len() <= k,
                forall|i: int, j: int|
                    0 <= i < j < by_source@.len() ==> (#[trigger] by_source@[i]).0 != (
                    #[trigger] by_source@[j]).0,
                forall|i: int|
                    0 <= i < by_source@.len() ==> (#[trigger] by_source@[i]).1 == count_source(
                        pairs.subrange(0, k as int),
                        by_source@[i].0,
                    ),
                forall|m: int| 0 <= m < k ==> lists_source(by_source@, (#[trigger] pairs[m]).source.bits),
            decreases pairs.len() - k,
        {
            let bits = self.pairs[k].source.bits;
            let total = self.pairs.len();
            let ghost before = by_source@;
            let ghost done = pairs.subrange(0, k as int);
            let ghost next = pairs.subrange(0, k + 1);
            assert(next.drop_last() =~= done);
            let mut i: usize = 0;
            let mut found = false;
            while i < by_source.len()
                invariant
                    i <= by_source@.len(),
                    by_source@.len() == before.len(),
                    !found ==> by_source@ == before,
                    !found ==> forall|j: int| 0 <= j < i ==> (#[trigger] before[j]).0 != bits,
                    found ==> {
                        &&& exists|j: int| 0 <= j < before.len() && (#[trigger] before[j]).0 == bits
                        &&& forall|j: int|
                            0 <= j < before.len() ==> (#[trigger] by_source@[j]).0 == before[j].0
                                && by_source@[j].1 == if before[j].0 == bits {
                                before[j].1 + 1
                            } else {
                                before[j].1 as int
                            }
                    },
                    forall|j: int|
                        0 <= j < before.len() ==> (#[trigger] before[j]).1 == count_source(
                            done,
                            before[j].0,
                        ),
                    forall|j: int, l: int|
                        0 <= j < l < before.len() ==> (#[trigger] before[j]).0 != (
                        #[trigger] before[l]).0,
                    forall|m: int| 0 <= m < k ==> lists_source(before, (#[trigger] pairs[m]).source.bits),
                    before.len() <= k,
                    k < pairs.len(),
                    pairs.len() <= usize::MAX,
                    pairs == self.pairs@,
                    done == pairs.subrange(0, k as int),
                decreases by_source@.len() - i,
            {
                if !found && by_source[i].0 == bits {
                    let c = by_source[i].1;
                    assert(c == count_source(done, bits));
                    assert(count_source(done, bits) <= done.len()) by {
                        lemma_count_source_bounded(done, bits);
                    }
                    by_source.set(i, (bits, c + 1));
                    found = true;
                    proof {
                        assert forall|j: int| 0 <= j < before.len() implies (#[trigger] by_source@[j]).0
                            == before[j].0 && by_source@[j].1 == if before[j].0 == bits {
                            before[j].1 + 1
                        } else {
                            before[j].1 as int
                        } by {
                            if j != i {
                                assert(before[j].0 != before[i as int].0 || j == i);
                            }
                        }
                    }
                }
                i = i + 1;
            }
            if !found {
                by_source.push((bits, 1));
            }
            proof {
                assert forall|j: int| 0 <= j < by_source@.len() implies (#[trigger] by_source@[j]).1
                    == count_source(next, by_source@[j].0) by {
                    if j < before.len() {
                        assert(by_source@[j].0 == before[j].0);
                    } else {
                        lemma_count_source_absent(done, bits);
                    }
                }
                assert forall|m: int| 0 <= m < k + 1 implies lists_source(by_source@, (#[trigger] pairs[m]).source.bits) by {
                    if m < k {
                        assert(lists_source(before, pairs[m].source.bits));
                        let i0 = choose|i0: int| 0 <= i0 < before.len() && (#[trigger] before[i0]).0 == pairs[m].source.bits;
                        assert(by_source@[i0].0 == before[i0].0);
                    } else if found {
                        let i0 = choose|i0: int| 0 <= i0 < before.len() && (#[trigger] before[i0]).0 == bits;
                        assert(by_source@[i0].0 == before[i0].0);
                    } else {
                        assert(by_source@[before.len() as int].0 == bits);
                    }
                }
            }
            k = k + 1;
        }
        assert(pairs.subrange(0, pairs.len() as int) =~= pairs);
        let d = GraphDiagnostics { total_pairs: self.pairs.len(), by_source };
        d
    }
}

/// A source count never exceeds the number of pairs.
proof fn lemma_count_source_bounded<P>(pairs: Seq<CandidateEdge<P>>, bits: u32)
    ensures
        count_source(pairs, bits) <= pairs.len(),
    decreases pairs.len(),
{
    if pairs.len() > 0 {
        lemma_count_source_bounded(pairs.drop_last(), bits);
    }
}

/// A source no pair has is counted zero times.
proof fn lemma_count_source_absent<P>(pairs: Seq<CandidateEdge<P>>, bits: u32)
    requires
        forall|m: int| 0 <= m < pairs.len() ==> (#[trigger] pairs[m]).source.bits != bits,
    ensures
        count_source(pairs, bits) == 0,
    decreases pairs.len(),
{
    if pairs.len() > 0 {
        assert forall|m: int| 0 <= m < pairs.len() - 1 implies (#[trigger] pairs.drop_last()[m]).source.bits
            != bits by {
            assert(pairs.drop_last()[m] == pairs[m]);
        }
        lemma_count_source_absent(pairs.drop_last(), bits);
    }
}

/// The largest image id COLMAP pairs are keyed by.
pub open spec fn colmap_pair_base() -> int {
    2147483647
}

/// COLMAP's id of the unordered image pair: `base * smaller + larger`.
pub open spec fn colmap_pair_id(a: int, b: int) -> int {
    if a > b {
        colmap_pair_base() * b + a
    } else {
        colmap_pair_base() * a + b
    }
}

/// The pair id does not depend on the order of the two images.
pub proof fn lemma_pair_id_symmetric(a: int, b: int)
    ensures
        colmap_pair_id(a, b) == colmap_pair_id(b, a),
{
}

/// Ids below the base identify the unordered pair: equal pair ids mean the same two
/// images.
pub proof fn lemma_pair_id_identifies_pair(a: int, b: int, c: int, d: int)
    requires
        0 <= a < colmap_pair_base(),
        0 <= b < colmap_pair_base(),
        0 <= c < colmap_pair_base(),
        0 <= d < colmap_pair_base(),
        colmap_pair_id(a, b) == colmap_pair_id(c, d),
    ensures
        (a == c && b == d) || (a == d && b == c),
{
    let lo1 = if a > b { b } else { a };
    let hi1 = if a > b { a } else { b };
    let lo2 = if c > d { d } else { c };
    let hi2 = if c > d { c } else { d };
    let m = colmap_pair_base();
    assert(m * lo1 + hi1 == m * lo2 + hi2);
    assert(lo1 == lo2) by (nonlinear_arith)
        requires
            m * lo1 + hi1 == m * lo2 + hi2,
            0 <= hi1 < m,
            0 <= hi2 < m,
            m > 0,
    ;
}

/// COLMAP's pair id of two image ids.
pub fn pair_id_for_colmap(image_id_a: i64, image_id_b: i64) -> (r: i64)
    requires
        i64::MIN <= colmap_pair_base() * (if image_id_a > image_id_b { image_id_b } else { image_id_a })
            <= i64::MAX,
        i64::MIN <= colmap_pair_id(image_id_a as int, image_id_b as int) <= i64::MAX,
    ensures
        r == colmap_pair_id(image_id_a as int, image_id_b as int),
{
    let max: i64 = 2147483647;
    if image_id_a > image_id_b {
        max * image_id_b + image_id_a
    } else {
        max * image_id_a + image_id_b
    }
}

} // verus!
