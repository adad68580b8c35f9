//! Run-level laws of the engine.
//!
//! These theorems relate the reconciler and the history across whole runs:
//! a completed run leaves nothing pending, and no identifier is ever
//! recorded twice.

use crate::order::{lemma_str_leq_total_ordering, str_leq};
use crate::reconcile::{not_applied, spec_pending};
use vstd::prelude::*;
use vstd::seq_lib::*;

verus! {

proof fn lemma_filter_preserves_no_duplicates(s: Seq<Seq<char>>, pred: spec_fn(Seq<char>) -> bool)
    requires
        s.no_duplicates(),
    ensures
        s.filter(pred).no_duplicates(),
    decreases s.len(),
{
    broadcast use Seq::lemma_filter_push, Seq::lemma_filter_contains_rev, Seq::lemma_filter_len;

    if s.len() == 0 {
        assert(s =~= Seq::<Seq<char>>::empty());
        assert(s.filter(pred).len() == 0);
    } else {
        let rest = s.drop_last();
        let last = s.last();
        lemma_filter_preserves_no_duplicates(rest, pred);
        assert(s =~= rest.push(last));
        if pred(last) {
            assert(s.filter(pred) == rest.filter(pred).push(last));
            assert(!rest.contains(last));
            assert(!rest.filter(pred).contains(last));
            let out = rest.filter(pred).push(last);
            assert forall|i: int, j: int|
                0 <= i < out.len() && 0 <= j < out.len() && i != j implies out[i] != out[j] by {
                if i < out.len() - 1 && j < out.len() - 1 {
                    assert(out[i] == rest.filter(pred)[i] && out[j] == rest.filter(pred)[j]);
                } else if j == out.len() - 1 {
                    assert(rest.filter(pred).contains(rest.filter(pred)[i])) by {
                        assert(rest.filter(pred)[i] == rest.filter(pred)[i]);
                    }
                    assert(out[i] != last);
                } else {
                    assert(rest.filter(pred).contains(rest.filter(pred)[j])) by {
                        assert(rest.filter(pred)[j] == rest.filter(pred)[j]);
                    }
                    assert(out[j] != last);
                }
            }
        } else {
            assert(s.filter(pred) == rest.filter(pred));
        }
    }
}

/// Idempotence of a completed run. Once every identifier of the pending
/// sequence has been recorded alongside the history it was reconciled
/// against, reconciling the same discovered identifiers again yields an
/// empty pending sequence: running the engine twice with nothing added in
/// between makes the second run a no-op.
pub proof fn lemma_rerun_is_noop(discovered: Seq<Seq<char>>, applied: Set<Seq<char>>)
    ensures
        spec_pending(
            discovered,
            applied.union(spec_pending(discovered, applied).to_set()),
        ) == Seq::<Seq<char>>::empty(),
{
    broadcast use Seq::lemma_filter_contains, to_multiset_contains, to_multiset_len;

    lemma_str_leq_total_ordering();
    let p = spec_pending(discovered, applied);
    let after = applied.union(p.to_set());
    let f = discovered.filter(not_applied(applied));
    f.lemma_sort_by_ensures(str_leq());
    assert forall|i: int| 0 <= i < discovered.len() implies !(#[trigger] not_applied(after)(
        discovered[i],
    )) by {
        if applied.contains(discovered[i]) {
            assert(after.contains(discovered[i]));
        } else {
            assert(not_applied(applied)(discovered[i]));
            assert(f.contains(discovered[i]));
            assert(f.to_multiset().count(discovered[i]) > 0);
            assert(p.to_multiset().count(discovered[i]) > 0);
            assert(p.contains(discovered[i]));
            assert(p.to_set().contains(discovered[i]));
            assert(after.contains(discovered[i]));
        }
    }
    let f2 = discovered.filter(not_applied(after));
    discovered.lemma_all_neg_filter_empty(not_applied(after));
    assert(f2 =~= Seq::<Seq<char>>::empty());
    f2.lemma_sort_by_ensures(str_leq());
    assert(f2.to_multiset().len() == f2.len());
    assert(f2.sort_by(str_leq()).to_multiset() == f2.to_multiset());
    assert(f2.sort_by(str_leq()).to_multiset().len() == 0);
    assert(f2.sort_by(str_leq()).len() == 0);
    assert(spec_pending(discovered, after) =~= Seq::<Seq<char>>::empty());
}

/// The pending sequence holds exactly the discovered identifiers that are
/// outside the history: pending is contained in discovered, and pending and
/// applied are disjoint.
pub proof fn lemma_pending_is_discovered_minus_applied(
    discovered: Seq<Seq<char>>,
    applied: Set<Seq<char>>,
)
    ensures
        forall|x: Seq<char>|
            #[trigger] spec_pending(discovered, applied).contains(x) <==> discovered.contains(x)
                && !applied.contains(x),
{
    broadcast use
        to_multiset_contains,
        Seq::lemma_filter_contains,
        Seq::lemma_filter_pred,
        Seq::lemma_filter_contains_rev;

    lemma_str_leq_total_ordering();
    let p = spec_pending(discovered, applied);
    let f = discovered.filter(not_applied(applied));
    f.lemma_sort_by_ensures(str_leq());
    assert forall|x: Seq<char>| #[trigger] p.contains(x) implies discovered.contains(x)
        && !applied.contains(x) by {
        assert(p.to_multiset().count(x) > 0);
        assert(f.to_multiset().count(x) > 0);
        assert(f.contains(x));
        let j = choose|j: int| 0 <= j < f.len() && f[j] == x;
        assert(not_applied(applied)(f[j]));
        assert(discovered.contains(x));
    }
    assert forall|x: Seq<char>| discovered.contains(x) && !applied.contains(x) implies #[trigger] p
        .contains(x) by {
        let i = choose|i: int| 0 <= i < discovered.len() && discovered[i] == x;
        assert(not_applied(applied)(discovered[i]));
        assert(f.contains(x));
        assert(f.to_multiset().count(x) > 0);
        assert(p.to_multiset().count(x) > 0);
        assert(p.contains(x));
    }
}

/// At-most-once application. When the discovered identifiers carry no
/// repeats, the pending sequence of a run repeats no identifier and contains
/// none that the history already holds; since a run only ever records
/// identifiers of its pending sequence, no identifier gains a second record,
/// within a run or across runs.
pub proof fn lemma_at_most_once(discovered: Seq<Seq<char>>, applied: Set<Seq<char>>)
    requires
        discovered.no_duplicates(),
    ensures
        spec_pending(discovered, applied).no_duplicates(),
        forall|i: int|
            0 <= i < spec_pending(discovered, applied).len() ==> !applied.contains(
                #[trigger] spec_pending(discovered, applied)[i],
            ),
{
    broadcast use to_multiset_contains, to_multiset_len, Seq::lemma_filter_pred;

    lemma_str_leq_total_ordering();
    let p = spec_pending(discovered, applied);
    let f = discovered.filter(not_applied(applied));
    f.lemma_sort_by_ensures(str_leq());
    lemma_filter_preserves_no_duplicates(discovered, not_applied(applied));
    f.lemma_multiset_has_no_duplicates();
    assert forall|x: Seq<char>| p.to_multiset().contains(x) implies p.to_multiset().count(x)
        == 1 by {
        assert(f.to_multiset().count(x) == p.to_multiset().count(x));
        assert(f.to_multiset().contains(x));
    }
    p.lemma_multiset_has_no_duplicates_conv();
    assert forall|i: int| 0 <= i < p.len() implies !applied.contains(#[trigger] p[i]) by {
        assert(p.contains(p[i])) by {
            assert(p[i] == p[i]);
        }
        assert(p.to_multiset().count(p[i]) > 0);
        assert(f.to_multiset().count(p[i]) > 0);
        assert(f.contains(p[i]));
        let j = choose|j: int| 0 <= j < f.len() && f[j] == p[i];
        assert(not_applied(applied)(f[j]));
    }
}

} // verus!
