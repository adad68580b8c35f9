//! The reconciler: discovered minus applied, in apply order.
//!
//! Given the discovered identifiers and the persisted history, the pending
//! sequence of a run is the discovered identifiers not yet applied, sorted in
//! ascending lexicographic order. The result is a pure function of its
//! inputs, so a run's work is deterministic and independent of the order in
//! which the source was enumerated.

use crate::order::{lemma_str_leq_total_ordering, str_le, str_le_exec, str_leq};
use vstd::prelude::*;
use vstd::relations::sorted_by;
use vstd::seq_lib::*;

verus! {

/// The membership test "not yet applied", as a relation value for `filter`.
pub open spec fn not_applied(applied: Set<Seq<char>>) -> spec_fn(Seq<char>) -> bool {
    |m: Seq<char>| !applied.contains(m)
}

/// The pending sequence of a run: discovered identifiers that are not in the
/// applied history, in ascending lexicographic order.
pub open spec fn spec_pending(discovered: Seq<Seq<char>>, applied: Set<Seq<char>>) -> Seq<
    Seq<char>,
> {
    discovered.filter(not_applied(applied)).sort_by(str_leq())
}

/// Decides whether `m` occurs among `ids`.
fn contains_identifier(ids: &Vec<String>, m: &String) -> (r: bool)
    ensures
        r == ids.deep_view().contains(m@),
{
    let mut i: usize = 0;
    while i < ids.len()
        invariant
            i <= ids.len(),
            ids.deep_view().len() == ids@.len(),
            forall|j: int| 0 <= j < i ==> ids.deep_view()[j] != m@,
        decreases ids.len() - i,
    {
        if ids[i].eq(m) {
            proof {
                assert(ids.deep_view()[i as int] == m@);
            }
            return true;
        }
        i = i + 1;
    }
    proof {
        assert(!ids.deep_view().contains(m@));
    }
    false
}

/// The least position of `out` whose identifier is at least `m`; the length
/// of `out` when every identifier is below `m`.
fn insertion_point(out: &Vec<String>, m: &String) -> (k: usize)
    requires
        sorted_by(out.deep_view(), str_leq()),
    ensures
        k <= out.deep_view().len(),
        forall|j: int| 0 <= j < k ==> !str_le(m@, out.deep_view()[j]),
        k < out.deep_view().len() ==> str_le(m@, out.deep_view()[k as int]),
{
    let mut k: usize = 0;
    while k < out.len() && !str_le_exec(m.as_str(), out[k].as_str())
        invariant
            k <= out.len(),
            out.deep_view().len() == out@.len(),
            forall|j: int| 0 <= j < k ==> !str_le(m@, out.deep_view()[j]),
        decreases out.len() - k,
    {
        proof {
            assert(out.deep_view()[k as int] == out@[k as int]@);
        }
        k = k + 1;
    }
    k
}

/// Inserts `m` into the sorted vector `out`, keeping it sorted; the contents
/// grow by exactly `m`.
fn insert_sorted(out: &mut Vec<String>, m: String)
    requires
        sorted_by(old(out).deep_view(), str_leq()),
    ensures
        sorted_by(final (out).deep_view(), str_leq()),
        final (out).deep_view().to_multiset() == old(out).deep_view().to_multiset().insert(m@),
{
    let ghost prev = out.deep_view();
    let ghost leq = str_leq();
    let k = insertion_point(out, &m);
    out.insert(k, m);
    proof {
        lemma_str_leq_total_ordering();
        let cur = out.deep_view();
        assert(cur =~= prev.insert(k as int, m@));
        prev.insert_ensures(k as int, m@);
        assert forall|i: int, j: int| 0 <= i < j < cur.len() implies #[trigger] leq(
            cur[i],
            cur[j],
        ) by {
            if i < k && j < k {
                assert(cur[i] == prev[i] && cur[j] == prev[j]);
                assert(leq(prev[i], prev[j]));
            } else if i < k && j == k {
                assert(cur[i] == prev[i] && cur[j] == m@);
                crate::order::lemma_str_le_total(m@, prev[i]);
                assert(str_le(prev[i], m@));
            } else if i == k && j > k {
                assert(cur[i] == m@ && cur[j] == prev[j - 1]);
                assert(str_le(m@, prev[k as int]));
                if k < j - 1 {
                    assert(leq(prev[k as int], prev[j - 1]));
                    crate::order::lemma_str_le_trans(m@, prev[k as int], prev[j - 1]);
                }
                assert(str_le(m@, prev[j - 1]));
            } else if i > k && j > k {
                assert(cur[i] == prev[i - 1] && cur[j] == prev[j - 1]);
                assert(leq(prev[i - 1], prev[j - 1]));
            } else {
                assert(i < k && j > k);
                assert(cur[i] == prev[i] && cur[j] == prev[j - 1]);
                crate::order::lemma_str_le_total(m@, prev[i]);
                assert(str_le(prev[i], m@));
                assert(str_le(m@, prev[k as int]));
                if k < j - 1 {
                    assert(leq(prev[k as int], prev[j - 1]));
                    crate::order::lemma_str_le_trans(m@, prev[k as int], prev[j - 1]);
                }
                crate::order::lemma_str_le_trans(prev[i], m@, prev[j - 1]);
                assert(str_le(prev[i], prev[j - 1]));
            }
            assert(leq(cur[i], cur[j]) == str_le(cur[i], cur[j]));
        }
        broadcast use to_multiset_insert;

        assert(cur.to_multiset() == prev.to_multiset().insert(m@));
    }
}

/// Sorts the identifiers in ascending lexicographic order; the contents are
/// kept exactly.
fn sort_identifiers(v: Vec<String>) -> (r: Vec<String>)
    ensures
        sorted_by(r.deep_view(), str_leq()),
        r.deep_view().to_multiset() == v.deep_view().to_multiset(),
{
    let mut out: Vec<String> = Vec::new();
    let mut i: usize = 0;
    proof {
        assert(out.deep_view() =~= v.deep_view().take(0));
    }
    while i < v.len()
        invariant
            i <= v.len(),
            v.deep_view().len() == v@.len(),
            sorted_by(out.deep_view(), str_leq()),
            out.deep_view().to_multiset() == v.deep_view().take(i as int).to_multiset(),
        decreases v.len() - i,
    {
        proof {
            let dv = v.deep_view();
            assert(dv.take(i + 1) =~= dv.take(i as int).push(dv[i as int]));
            broadcast use to_multiset_build;

            assert(dv.take(i + 1).to_multiset() == dv.take(i as int).to_multiset().insert(
                dv[i as int],
            ));
            assert(dv[i as int] == v@[i as int]@);
        }
        insert_sorted(&mut out, v[i].clone());
        i = i + 1;
    }
    proof {
        assert(v.deep_view().take(v@.len() as int) =~= v.deep_view());
    }
    out
}

/// Computes the pending sequence of a run: the discovered identifiers
/// (`files`) that do not occur among the applied ones (`migration_ids`),
/// sorted in ascending lexicographic order.
pub fn filter_not_applied_migrations(migration_ids: Vec<String>, files: Vec<String>) -> (r: Vec<
    String,
>)
    ensures
        r.deep_view() == spec_pending(files.deep_view(), migration_ids.deep_view().to_set()),
        sorted_by(r.deep_view(), str_leq()),
{
    let ghost applied = migration_ids.deep_view().to_set();
    let mut kept: Vec<String> = Vec::new();
    let mut i: usize = 0;
    while i < files.len()
        invariant
            i <= files.len(),
            files.deep_view().len() == files@.len(),
            applied == migration_ids.deep_view().to_set(),
            kept.deep_view() == files.deep_view().take(i as int).filter(not_applied(applied)),
        decreases files.len() - i,
    {
        proof {
            let dv = files.deep_view();
            assert(dv.take(i + 1) =~= dv.take(i as int).push(dv[i as int]));
            dv.take(i as int).lemma_filter_push(dv[i as int], not_applied(applied));
            assert(dv[i as int] == files@[i as int]@);
        }
        let ghost prev = kept.deep_view();
        if !contains_identifier(&migration_ids, &files[i]) {
            proof {
                assert(!applied.contains(files@[i as int]@));
            }
            kept.push(files[i].clone());
            proof {
                assert(kept.deep_view() =~= prev.push(files@[i as int]@));
            }
        } else {
            proof {
                assert(applied.contains(files@[i as int]@));
            }
        }
        i = i + 1;
    }
    proof {
        assert(files.deep_view().take(files@.len() as int) =~= files.deep_view());
    }
    let r = sort_identifiers(kept);
    proof {
        lemma_str_leq_total_ordering();
        let filtered = files.deep_view().filter(not_applied(applied));
        filtered.lemma_sort_by_ensures(str_leq());
        lemma_sorted_unique(r.deep_view(), filtered.sort_by(str_leq()), str_leq());
        assert(r.deep_view() =~= spec_pending(files.deep_view(), applied));
    }
    r
}

} // verus!
