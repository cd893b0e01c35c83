//! The commands a user runs against the store: reading the daily brief and
//! deleting what was fetched.
use vstd::prelude::*;
use crate::storage::{source_tally_adds_up, total_count, Storage};
use crate::Digest;

verus! {

/// The latest digest of the store. Errors of the store are passed on; a
/// store that never fails gives it.
pub fn get_daily_items<S: Storage>(storage: &S) -> (r: Result<Option<Digest>, String>)
    ensures
        storage.reliable() ==> r is Ok,
        storage.modelled() ==> (r matches Ok(d) ==> match d {
            Some(d) => storage.held_digest() == Some(d@),
            None => storage.held_digest() is None,
        }),
{
    storage.get_digest()
}

/// Deletes every stored item (and the digest), and says how many items there
/// were (`usize::MAX` standing for any larger number). Errors of the store
/// are passed on; with a store that never fails, it succeeds.
pub fn delete_items<S: Storage>(storage: &mut S) -> (r: Result<usize, String>)
    ensures
        old(storage).reliable() ==> r is Ok,
        old(storage).modelled() ==> (r matches Ok(n) ==> n == if old(storage).held_items().len()
            <= usize::MAX {
            old(storage).held_items().len()
        } else {
            usize::MAX as nat
        }),
        old(storage).modelled() && r is Ok ==> final(storage).held_items().len() == 0
            && final(storage).held_digest() is None && final(storage).held_mailboxes() == old(
            storage,
        ).held_mailboxes(),
{
    let counts = storage.get_item_counts_by_source()?;
    proof {
        if old(storage).modelled() {
            source_tally_adds_up(old(storage).held_items(), counts@);
        }
    }
    let total = total_count(counts.as_slice());
    storage.clear()?;
    Ok(total)
}

} // verus!
