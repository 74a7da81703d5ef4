//! The image names of a set of pairs, kept sorted.

use vstd::prelude::*;
use crate::text::{chars_equal, chars_of, lemma_lex_total, lemma_lex_transitive, lex_less, lex_lt};
use crate::pairs::graph::{is_name_order, lemma_sorted_unique, name_order, names_image, strictly_sorted, CandidateEdge};

verus! {

/// The character views of a list of names.
pub open spec fn name_views(q: Seq<Vec<char>>) -> Seq<Seq<char>> {
    q.map_values(|v: Vec<char>| v@)
}

/// Inserts `s` into the sorted list `q` unless it is already there.
fn insert_name(q: &mut Vec<Vec<char>>, s: Vec<char>)
    requires
        strictly_sorted(name_views(old(q)@)),
    ensures
        strictly_sorted(name_views(final(q)@)),
        forall|t: Seq<char>| name_views(final(q)@).contains(t) <==> (name_views(old(q)@).contains(t) || t == s@),
{
    let ghost qs = name_views(q@);
    let mut pos: usize = 0;
    while pos < q.len() && lex_less(&q[pos], &s)
        invariant
            qs == name_views(q@),
            strictly_sorted(qs),
            pos <= q.len(),
            forall|i: int| 0 <= i < pos ==> lex_lt(#[trigger] qs[i], s@),
        decreases q.len() - pos,
    {
        assert(qs[pos as int] == q@[pos as int]@);
        pos = pos + 1;
    }
    if pos < q.len() && chars_equal(&q[pos], &s) {
        assert(qs[pos as int] == s@);
        assert forall|t: Seq<char>| qs.contains(t) <==> (qs.contains(t) || t == s@) by {
            if t == s@ {
                assert(qs.contains(qs[pos as int]));
            }
        }
        return;
    }
    proof {
        if pos < q.len() {
            assert(qs[pos as int] == q@[pos as int]@);
            lemma_lex_total(qs[pos as int], s@);
        }
    }
    let ghost sv = s@;
    q.insert(pos, s);
    proof {
        let nq = name_views(q@);
        assert(nq =~= qs.insert(pos as int, sv));
        assert forall|a: int, b: int| 0 <= a < b < nq.len() implies lex_lt(#[trigger] nq[a], #[trigger] nq[b]) by {
            if b < pos {
                assert(nq[a] == qs[a] && nq[b] == qs[b]);
            } else if b == pos {
                assert(nq[a] == qs[a]);
            } else if a < pos {
                assert(nq[a] == qs[a] && nq[b] == qs[b - 1]);
                if b - 1 > pos {
                    lemma_lex_transitive(sv, qs[pos as int], qs[b - 1]);
                }
                lemma_lex_transitive(qs[a], sv, qs[b - 1]);
            } else if a == pos {
                assert(nq[b] == qs[b - 1]);
                if b - 1 > pos {
                    lemma_lex_transitive(sv, qs[pos as int], qs[b - 1]);
                }
            } else {
                assert(nq[a] == qs[a - 1] && nq[b] == qs[b - 1]);
            }
        }
        assert forall|t: Seq<char>| nq.contains(t) <==> (qs.contains(t) || t == sv) by {
            if nq.contains(t) {
                let a = choose|a: int| 0 <= a < nq.len() && nq[a] == t;
                if a < pos {
                    assert(qs[a] == t);
                } else if a > pos {
                    assert(qs[a - 1] == t);
                }
            }
            if qs.contains(t) {
                let a = choose|a: int| 0 <= a < qs.len() && qs[a] == t;
                if a < pos {
                    assert(nq[a] == t);
                } else {
                    assert(nq[a + 1] == t);
                }
            }
            if t == sv {
                assert(nq[pos as int] == t);
            }
        }
    }
}

/// The image names of the graph's pairs, once each, in increasing `String` order.
pub(crate) fn image_name_order<P>(edges: &Vec<CandidateEdge<P>>) -> (q: Vec<Vec<char>>)
    ensures
        is_name_order(edges@, name_views(q@)),
        name_views(q@) == name_order(edges@),
{
    let ghost pairs = edges@;
    let mut q: Vec<Vec<char>> = Vec::new();
    assert(name_views(q@) =~= Seq::<Seq<char>>::empty());
    let mut k: usize = 0;
    while k < edges.len()
        invariant
            pairs == edges@,
            k <= pairs.len(),
            strictly_sorted(name_views(q@)),
            forall|s: Seq<char>| name_views(q@).contains(s) <==> names_image(pairs.subrange(0, k as int), s),
        decreases pairs.len() - k,
    {
        let a = chars_of(edges[k].image_a.as_str());
        let b = chars_of(edges[k].image_b.as_str());
        let ghost q0 = name_views(q@);
        insert_name(&mut q, a);
        let ghost q1 = name_views(q@);
        insert_name(&mut q, b);
        proof {
            let q2 = name_views(q@);
            let done = pairs.subrange(0, k as int);
            let next = pairs.subrange(0, k + 1);
            assert forall|s: Seq<char>| q2.contains(s) <==> names_image(next, s) by {
                if names_image(done, s) {
                    let i = choose|i: int| 0 <= i < done.len() && ((#[trigger] done[i]).image_a@ == s || done[i].image_b@ == s);
                    assert(next[i] == done[i]);
                }
                if names_image(next, s) {
                    let i = choose|i: int| 0 <= i < next.len() && ((#[trigger] next[i]).image_a@ == s || next[i].image_b@ == s);
                    if i < k {
                        assert(done[i] == next[i]);
                        assert(names_image(done, s));
                    } else {
                        assert(next[i] == pairs[k as int]);
                    }
                }
                assert(next[k as int] == pairs[k as int]);
            }
        }
        k = k + 1;
    }
    proof {
        assert(pairs.subrange(0, pairs.len() as int) =~= pairs);
        let qs = name_views(q@);
        assert(is_name_order(pairs, qs));
        let chosen = name_order(pairs);
        assert(is_name_order(pairs, chosen));
        lemma_sorted_unique(qs, chosen);
    }
    q
}


} // verus!
