//! Discovery of candidate migrations.
//!
//! A directory entry is a candidate migration exactly when its name ends in a
//! decimal digit: the naming convention that carries a sortable version
//! prefix. Names that fail the test are silently skipped, never an error.
//! The driver enumerates the raw entry names; this module makes the verified
//! keep-or-skip decision for each of them.

use vstd::prelude::*;
use vstd::seq_lib::*;

verus! {

/// A decimal digit, `'0'` through `'9'`.
pub open spec fn spec_is_digit(c: char) -> bool {
    48 <= c as u32 <= 57
}

/// A name is a valid migration identifier exactly when it is non-empty and
/// its last character is a decimal digit.
pub open spec fn spec_is_valid_migration(name: Seq<char>) -> bool {
    name.len() > 0 && spec_is_digit(name[name.len() - 1])
}

/// The validity test as a relation value, for use with `filter`.
pub open spec fn valid_migration_pred() -> spec_fn(Seq<char>) -> bool {
    |name: Seq<char>| spec_is_valid_migration(name)
}

/// Decides whether `name` is a valid migration identifier: non-empty, and
/// ending in a decimal digit.
pub fn is_valid_migration(name: &str) -> (r: bool)
    ensures
        r == spec_is_valid_migration(name@),
{
    let n = name.unicode_len();
    if n == 0 {
        return false;
    }
    let c = name.get_char(n - 1);
    let u = c as u32;
    48 <= u && u <= 57
}

/// Keeps exactly the valid migration identifiers among the enumerated entry
/// names, in their given order. Returns `None` when nothing valid was found,
/// so a caller treats "no source location" and "no valid candidate" alike:
/// exit cleanly with nothing to do.
pub fn filter_migration_candidates(names: Vec<String>) -> (r: Option<Vec<String>>)
    ensures
        match r {
            Some(v) => v.deep_view() == names.deep_view().filter(valid_migration_pred())
                && v.deep_view().len() > 0,
            None => names.deep_view().filter(valid_migration_pred()).len() == 0,
        },
{
    let ghost pred = valid_migration_pred();
    let mut kept: Vec<String> = Vec::new();
    let mut i: usize = 0;
    while i < names.len()
        invariant
            i <= names.len(),
            names.deep_view().len() == names@.len(),
            kept.deep_view() == names.deep_view().take(i as int).filter(valid_migration_pred()),
        decreases names.len() - i,
    {
        proof {
            let dv = names.deep_view();
            assert(dv.take(i + 1) =~= dv.take(i as int).push(dv[i as int]));
            dv.take(i as int).lemma_filter_push(dv[i as int], valid_migration_pred());
            assert(dv[i as int] == names@[i as int]@);
        }
        let ghost prev = kept.deep_view();
        if is_valid_migration(names[i].as_str()) {
            kept.push(names[i].clone());
            proof {
                assert(kept.deep_view() =~= prev.push(names@[i as int]@));
            }
        }
        i = i + 1;
    }
    proof {
        assert(names.deep_view().take(names@.len() as int) =~= names.deep_view());
    }
    if kept.len() == 0 {
        proof {
            assert(kept.deep_view().len() == kept@.len());
        }
        None
    } else {
        proof {
            assert(kept.deep_view().len() == kept@.len());
        }
        Some(kept)
    }
}

} // verus!
