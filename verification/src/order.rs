//! Lexicographic ordering of migration identifiers.
//!
//! Pending migrations are applied in ascending lexicographic order of their
//! identifier, compared character by character on Unicode code points. This
//! module defines that order as a specification, proves it is a total
//! ordering, and provides a verified executable comparison.

use vstd::prelude::*;
use vstd::relations::total_ordering;

verus! {

/// Lexicographic "less than or equal" on character sequences, decided from
/// position `i` on: positions before `i` are taken to be equal already.
pub open spec fn str_le_from(a: Seq<char>, b: Seq<char>, i: int) -> bool
    decreases a.len() - i,
{
    if i >= a.len() {
        true
    } else if i >= b.len() {
        false
    } else if a[i] != b[i] {
        (a[i] as u32) < (b[i] as u32)
    } else {
        str_le_from(a, b, i + 1)
    }
}

/// Lexicographic "less than or equal" on identifiers: a proper prefix comes
/// first; otherwise the first differing character decides by code point.
pub open spec fn str_le(a: Seq<char>, b: Seq<char>) -> bool {
    str_le_from(a, b, 0)
}

/// The ordering as a relation value, for use with `sort_by` and `sorted_by`.
pub open spec fn str_leq() -> spec_fn(Seq<char>, Seq<char>) -> bool {
    |a: Seq<char>, b: Seq<char>| str_le(a, b)
}

proof fn lemma_str_le_from_refl(a: Seq<char>, i: int)
    ensures
        str_le_from(a, a, i),
    decreases a.len() - i,
{
    if i < a.len() {
        lemma_str_le_from_refl(a, i + 1);
    }
}

proof fn lemma_char_code_distinct(c: char, d: char)
    requires
        c != d,
    ensures
        c as u32 != d as u32,
{
}

proof fn lemma_str_le_from_total(a: Seq<char>, b: Seq<char>, i: int)
    ensures
        str_le_from(a, b, i) || str_le_from(b, a, i),
    decreases a.len() - i,
{
    if i >= a.len() {
        assert(str_le_from(a, b, i));
    } else if i >= b.len() {
        assert(str_le_from(b, a, i));
    } else if a[i] != b[i] {
        lemma_char_code_distinct(a[i], b[i]);
        if (a[i] as u32) < (b[i] as u32) {
            assert(str_le_from(a, b, i));
        } else {
            assert(str_le_from(b, a, i));
        }
    } else {
        lemma_str_le_from_total(a, b, i + 1);
        assert(str_le_from(a, b, i) == str_le_from(a, b, i + 1));
        assert(str_le_from(b, a, i) == str_le_from(b, a, i + 1));
    }
}

proof fn lemma_str_le_from_antisym(a: Seq<char>, b: Seq<char>, i: int)
    requires
        0 <= i <= a.len(),
        i <= b.len(),
        str_le_from(a, b, i),
        str_le_from(b, a, i),
        forall|j: int| 0 <= j < i ==> a[j] == b[j],
    ensures
        a == b,
    decreases a.len() - i,
{
    if i >= a.len() || i >= b.len() {
        assert(a.len() == b.len());
        assert(a =~= b);
    } else {
        assert(a[i] == b[i]);
        lemma_str_le_from_antisym(a, b, i + 1);
    }
}

proof fn lemma_str_le_from_trans(a: Seq<char>, b: Seq<char>, c: Seq<char>, i: int)
    requires
        str_le_from(a, b, i),
        str_le_from(b, c, i),
    ensures
        str_le_from(a, c, i),
    decreases a.len() - i,
{
    if i < a.len() && i < b.len() && i < c.len() && a[i] == b[i] && b[i] == c[i] {
        lemma_str_le_from_trans(a, b, c, i + 1);
    }
}

/// Any two identifiers are comparable.
pub proof fn lemma_str_le_total(a: Seq<char>, b: Seq<char>)
    ensures
        str_le(a, b) || str_le(b, a),
{
    lemma_str_le_from_total(a, b, 0);
}

/// The identifier order is transitive.
pub proof fn lemma_str_le_trans(a: Seq<char>, b: Seq<char>, c: Seq<char>)
    requires
        str_le(a, b),
        str_le(b, c),
    ensures
        str_le(a, c),
{
    lemma_str_le_from_trans(a, b, c, 0);
}

/// The identifier order is a total ordering: reflexive, antisymmetric,
/// transitive, and any two identifiers are comparable.
pub proof fn lemma_str_leq_total_ordering()
    ensures
        total_ordering(str_leq()),
{
    let leq = str_leq();
    assert forall|a: Seq<char>| #[trigger] leq(a, a) by {
        lemma_str_le_from_refl(a, 0);
    }
    assert forall|a: Seq<char>, b: Seq<char>| #[trigger] leq(a, b) && #[trigger] leq(b, a)
        implies a == b by {
        lemma_str_le_from_antisym(a, b, 0);
    }
    assert forall|a: Seq<char>, b: Seq<char>, c: Seq<char>|
        #[trigger] leq(a, b) && #[trigger] leq(b, c) implies leq(a, c) by {
        lemma_str_le_from_trans(a, b, c, 0);
    }
    assert forall|a: Seq<char>, b: Seq<char>| !(#[trigger] leq(a, b)) implies leq(b, a) by {
        lemma_str_le_from_total(a, b, 0);
    }
}

/// Verified executable comparison: `r` holds exactly when `a` is
/// lexicographically at most `b`.
pub fn str_le_exec(a: &str, b: &str) -> (r: bool)
    ensures
        r == str_le(a@, b@),
{
    let a_len = a.unicode_len();
    let b_len = b.unicode_len();
    let mut i: usize = 0;
    loop
        invariant
            i <= a_len,
            i <= b_len,
            a_len == a@.len(),
            b_len == b@.len(),
            str_le(a@, b@) == str_le_from(a@, b@, i as int),
        decreases a_len - i,
    {
        if i == a_len {
            return true;
        }
        if i == b_len {
            return false;
        }
        let ca = a.get_char(i);
        let cb = b.get_char(i);
        if ca != cb {
            return (ca as u32) < (cb as u32);
        }
        i = i + 1;
    }
}

} // verus!
