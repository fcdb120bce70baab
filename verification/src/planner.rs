//! Validating the edited targets against the originals.
//!
//! The planner pairs the original name records positionally with the
//! target names and enforces the one structural invariant of a rename
//! transaction: both sequences have the same length.  On a mismatch it
//! fails before anything touches the filesystem.  The executor's work
//! list is then exactly the pairs whose two names differ — a pair left
//! unchanged never causes a filesystem call.

use vstd::prelude::*;

use crate::errors::RenameError;

verus! {

/// The validated, ordered sequence of (original, target) pairs of one
/// rename transaction.
#[derive(Debug)]
pub struct NameMapping {
    pub pairs: Vec<(String, String)>,
}

/// The mathematical picture of a sequence of pairs.
pub open spec fn pair_views(pairs: Seq<(String, String)>) -> Seq<(Seq<char>, Seq<char>)> {
    pairs.map_values(|p: (String, String)| (p.0@, p.1@))
}

/// A pair that asks for an actual rename: its two names differ.
pub open spec fn changed_pair() -> spec_fn((Seq<char>, Seq<char>)) -> bool {
    |p: (Seq<char>, Seq<char>)| p.0 != p.1
}

/// Pairs originals with targets, rejecting a target list whose length
/// differs from the originals' — with no other effect.  On success the
/// mapping holds every pair, unchanged ones included, in order.
pub fn plan_renames(originals: &Vec<String>, targets: &Vec<String>) -> (r: Result<
    NameMapping,
    RenameError,
>)
    ensures
        r is Ok <==> originals@.len() == targets@.len(),
        r matches Ok(m) ==> {
            &&& m.pairs@.len() == originals@.len()
            &&& forall|i: int|
                0 <= i < m.pairs@.len()
                    ==> (#[trigger] m.pairs@[i]).0@ == originals@[i]@
                        && m.pairs@[i].1@ == targets@[i]@
        },
        r matches Err(e) ==> (e matches RenameError::LineCountMismatch(expected, actual)
            && expected == originals@.len() && actual == targets@.len()),
{
    if originals.len() != targets.len() {
        return Err(RenameError::LineCountMismatch(originals.len(), targets.len()));
    }
    let mut pairs: Vec<(String, String)> = Vec::new();
    let mut i: usize = 0;
    while i < originals.len()
        invariant
            i <= originals@.len(),
            originals@.len() == targets@.len(),
            pairs@.len() == i,
            forall|j: int|
                0 <= j < i
                    ==> (#[trigger] pairs@[j]).0@ == originals@[j]@
                        && pairs@[j].1@ == targets@[j]@,
        decreases originals@.len() - i,
    {
        pairs.push((originals[i].clone(), targets[i].clone()));
        i += 1;
    }
    Ok(NameMapping { pairs })
}

/// If every element of a sequence fails the predicate, filtering leaves
/// nothing.
proof fn lemma_filter_all_out<A>(s: Seq<A>, pred: spec_fn(A) -> bool)
    requires
        forall|i: int| 0 <= i < s.len() ==> !pred(#[trigger] s[i]),
    ensures
        s.filter(pred) == Seq::<A>::empty(),
    decreases s.len(),
{
    if s.len() == 0 {
        assert(s.filter(pred) =~= Seq::<A>::empty());
    } else {
        lemma_filter_all_out(s.drop_last(), pred);
        s.drop_last().lemma_filter_push(s.last(), pred);
        assert(s.drop_last().push(s.last()) =~= s);
    }
}

/// The executor's work list: the pairs that ask for an actual rename, in
/// order.  A mapping whose pairs are all unchanged yields an empty list —
/// such a run performs no filesystem call at all.
pub fn pairs_to_execute(mapping: &NameMapping) -> (r: Vec<(String, String)>)
    ensures
        pair_views(r@) == pair_views(mapping.pairs@).filter(changed_pair()),
        (forall|i: int|
            0 <= i < mapping.pairs@.len() ==> (#[trigger] mapping.pairs@[i]).0@
                == mapping.pairs@[i].1@) ==> r@.len() == 0,
{
    let mut r: Vec<(String, String)> = Vec::new();
    let mut i: usize = 0;
    proof {
        assert(mapping.pairs@.take(0) =~= Seq::<(String, String)>::empty());
        assert(pair_views(r@) =~= pair_views(mapping.pairs@.take(0)).filter(changed_pair()));
    }
    while i < mapping.pairs.len()
        invariant
            i <= mapping.pairs@.len(),
            pair_views(r@) == pair_views(mapping.pairs@.take(i as int)).filter(changed_pair()),
        decreases mapping.pairs@.len() - i,
    {
        let pair = &mapping.pairs[i];
        let ghost pre = pair_views(r@);
        if !(pair.0 == pair.1) {
            r.push((pair.0.clone(), pair.1.clone()));
        }
        proof {
            let s = mapping.pairs@;
            let pv = pair_views(s.take(i as int));
            let v = (s[i as int].0@, s[i as int].1@);
            assert(s.take(i as int + 1) =~= s.take(i as int).push(s[i as int]));
            assert(pair_views(s.take(i as int + 1)) =~= pv.push(v));
            pv.lemma_filter_push(v, changed_pair());
            if v.0 != v.1 {
                assert(pair_views(r@) =~= pre.push(v));
            }
        }
        i += 1;
    }
    proof {
        let s = mapping.pairs@;
        assert(s.take(s.len() as int) =~= s);
        if forall|j: int| 0 <= j < s.len() ==> (#[trigger] s[j]).0@ == s[j].1@ {
            assert forall|j: int| 0 <= j < pair_views(s).len() implies !changed_pair()(
                #[trigger] pair_views(s)[j],
            ) by {
                assert(s[j].0@ == s[j].1@);
            }
            lemma_filter_all_out(pair_views(s), changed_pair());
            assert(pair_views(r@).len() == 0);
        }
    }
    r
}

} // verus!
