//! The candidate pair list COLMAP's `matches_importer` reads: one `a b` line per pair.

use vstd::prelude::*;
use vstd::string::*;
use crate::pairs::graph::CandidateEdge;

verus! {

/// One line of the list.
pub open spec fn pair_line(a: Seq<char>, b: Seq<char>) -> Seq<char> {
    a + " "@ + b + "\n"@
}

/// The list for `pairs`, in order.
pub open spec fn pairs_text<P>(pairs: Seq<CandidateEdge<P>>) -> Seq<char>
    decreases pairs.len(),
{
    if pairs.len() == 0 {
        Seq::empty()
    } else {
        pairs_text(pairs.drop_last()) + pair_line(pairs.last().image_a@, pairs.last().image_b@)
    }
}

/// The text of the candidate pair list.
pub fn candidate_pairs_text<P>(pairs: &Vec<CandidateEdge<P>>) -> (s: String)
    ensures
        s@ == pairs_text(pairs@),
{
    let mut s = String::new();
    let mut i: usize = 0;
    while i < pairs.len()
        invariant
            i <= pairs@.len(),
            s@ == pairs_text(pairs@.subrange(0, i as int)),
        decreases pairs@.len() - i,
    {
        let ghost before = s@;
        s.append(pairs[i].image_a.as_str());
        s.append(" ");
        s.append(pairs[i].image_b.as_str());
        s.append("\n");
        proof {
            let done = pairs@.subrange(0, i + 1);
            assert(done.drop_last() =~= pairs@.subrange(0, i as int));
            assert(s@ =~= before + pair_line(pairs@[i as int].image_a@, pairs@[i as int].image_b@));
        }
        i = i + 1;
    }
    assert(pairs@.subrange(0, pairs@.len() as int) =~= pairs@);
    s
}

} // verus!
