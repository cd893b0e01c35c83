//! Fetching: every chosen mailbox is fetched, each item is marked with the
//! mailbox it came from, an item seen in an earlier mailbox is not taken
//! again, and what was new is stored.
use vstd::prelude::*;
use crate::fetcher::{fetched_as, is_suggestion, Fetcher};
use crate::storage::{has_id, unseen_items, Storage};
use crate::Item;

verus! {

/// What one mailbox contributed to a fetch.
#[derive(Debug)]
pub struct MailboxStats {
    pub name: String,
    /// How many items the mailbox held.
    pub total: usize,
    /// How many of them had not been seen earlier in the fetch.
    pub new: usize,
}

/// What a fetch brought: the new items, and what each mailbox contributed.
#[derive(Debug)]
pub struct FetchResult {
    pub items: Vec<Item>,
    pub per_mailbox: Vec<MailboxStats>,
}

/// `x` marked as coming from `mailbox`.
pub open spec fn stamped(x: Item, mailbox: String) -> Item {
    Item { mailbox: mailbox, ..x }
}

/// `acc` extended by the items of `batch`, each marked as coming from
/// `mailbox`, leaving out every item whose id is already present.
pub open spec fn absorbed(acc: Seq<Item>, batch: Seq<Item>, mailbox: String) -> Seq<Item>
    decreases batch.len(),
{
    if batch.len() == 0 {
        acc
    } else {
        let prev = absorbed(acc, batch.drop_last(), mailbox);
        if has_id(prev, batch.last().id@) {
            prev
        } else {
            prev.push(stamped(batch.last(), mailbox))
        }
    }
}

/// No two items of `s` share an id.
pub open spec fn distinct_ids(s: Seq<Item>) -> bool {
    forall|a: int, b: int| 0 <= a < b < s.len() ==> (#[trigger] s[a]).id@ != (#[trigger] s[b]).id@
}

/// The sum of the `new` counts of `s`.
pub open spec fn sum_new(s: Seq<MailboxStats>) -> nat
    decreases s.len(),
{
    if s.len() == 0 {
        0
    } else {
        sum_new(s.drop_last()) + s.last().new as nat
    }
}

/// The summary of a fetch is consistent: its items have distinct ids, the
/// mailboxes' new counts add up to the number of items, no mailbox has more
/// new items than items, and each item is marked with a mailbox of the fetch.
pub open spec fn consistent(r: FetchResult) -> bool {
    &&& distinct_ids(r.items@)
    &&& sum_new(r.per_mailbox@) == r.items@.len()
    &&& forall|k: int| 0 <= k < r.per_mailbox@.len() ==> (#[trigger] r.per_mailbox@[k]).new <= r.per_mailbox@[k].total
    &&& forall|j: int| 0 <= j < r.items@.len() ==> exists|k: int| 0 <= k < r.per_mailbox@.len() && (#[trigger] r.items@[j]).mailbox == (#[trigger] r.per_mailbox@[k]).name
}

proof fn lemma_absorbed_grows(acc: Seq<Item>, batch: Seq<Item>, mailbox: String)
    requires
        distinct_ids(acc),
    ensures
        distinct_ids(absorbed(acc, batch, mailbox)),
        acc.len() <= absorbed(acc, batch, mailbox).len() <= acc.len() + batch.len(),
        absorbed(acc, batch, mailbox).take(acc.len() as int) == acc,
        forall|j: int| acc.len() <= j < absorbed(acc, batch, mailbox).len() ==> (#[trigger] absorbed(acc, batch, mailbox)[j]).mailbox == mailbox,
    decreases batch.len(),
{
    if batch.len() == 0 {
        assert(acc.take(acc.len() as int) == acc);
    } else {
        lemma_absorbed_grows(acc, batch.drop_last(), mailbox);
        let prev = absorbed(acc, batch.drop_last(), mailbox);
        if !has_id(prev, batch.last().id@) {
            let r = prev.push(stamped(batch.last(), mailbox));
            assert forall|a: int, b: int| 0 <= a < b < r.len() implies (#[trigger] r[a]).id@ != (#[trigger] r[b]).id@ by {
                if b == prev.len() {
                    assert(r[a] == prev[a]);
                } else {
                    assert(r[a] == prev[a] && r[b] == prev[b]);
                }
            }
            assert(r.take(acc.len() as int) == prev.take(acc.len() as int));
            assert forall|j: int| acc.len() <= j < r.len() implies (#[trigger] r[j]).mailbox == mailbox by {
                if j < prev.len() {
                    assert(r[j] == prev[j]);
                }
            }
        }
    }
}

impl FetchResult {
    /// Adds what `mailbox` held to the fetch (see `absorbed`), and records how
    /// many items it held and how many of them were new.
    pub fn absorb_mailbox(&mut self, mailbox: &String, batch: Vec<Item>)
        ensures
            final(self).items@ == absorbed(old(self).items@, batch@, *mailbox),
            final(self).per_mailbox@ == old(self).per_mailbox@.push(MailboxStats {
                name: *mailbox,
                total: batch@.len() as usize,
                new: (final(self).items@.len() - old(self).items@.len()) as usize,
            }),
    {
        let before = self.items.len();
        let ghost start = self.items@;
        let mut i: usize = 0;
        while i < batch.len()
            invariant
                i <= batch.len(),
                before == start.len(),
                start == old(self).items@,
                self.per_mailbox == old(self).per_mailbox,
                self.items@ == absorbed(start, batch@.take(i as int), *mailbox),
                before <= self.items@.len() <= before + i,
            decreases batch.len() - i,
        {
            proof {
                let p = batch@.take(i + 1);
                assert(p.drop_last() == batch@.take(i as int));
                assert(p.last() == batch@[i as int]);
            }
            let mut k: usize = 0;
            let mut seen = false;
            while k < self.items.len() && !seen
                invariant
                    i < batch.len(),
                    k <= self.items.len(),
                    seen ==> has_id(self.items@, batch@[i as int].id@),
                    !seen ==> forall|m: int| 0 <= m < k ==> (#[trigger] self.items@[m]).id@ != batch@[i as int].id@,
                decreases self.items.len() - k + if seen { 0int } else { 1int },
            {
                if self.items[k].id == batch[i].id {
                    seen = true;
                } else {
                    k += 1;
                }
            }
            if !seen {
                let mut item = batch[i].duplicate();
                item.mailbox = mailbox.clone();
                assert(item == stamped(batch@[i as int], *mailbox));
                self.items.push(item);
            }
            i += 1;
        }
        assert(batch@.take(batch@.len() as int) == batch@);
        let new_count = self.items.len() - before;
        self.per_mailbox.push(MailboxStats { name: mailbox.clone(), total: batch.len(), new: new_count });
    }
}

/// What fetching `mailboxes` in order gives, where `outcomes[k]` is what
/// the fetch of `mailboxes[k]` brought (`None` for a failed fetch, which is
/// skipped): the new items (see `absorbed`) and a summary per mailbox that
/// was fetched.
pub open spec fn gathered(mailboxes: Seq<String>, outcomes: Seq<Option<Seq<Item>>>) -> (Seq<Item>, Seq<MailboxStats>)
    decreases mailboxes.len(),
{
    if mailboxes.len() == 0 || outcomes.len() == 0 {
        (Seq::empty(), Seq::empty())
    } else {
        let (items, stats) = gathered(mailboxes.drop_last(), outcomes.drop_last());
        match outcomes.last() {
            Some(b) => {
                let next = absorbed(items, b, mailboxes.last());
                (
                    next,
                    stats.push(
                        MailboxStats {
                            name: mailboxes.last(),
                            total: b.len() as usize,
                            new: (next.len() - items.len()) as usize,
                        },
                    ),
                )
            },
            None => (items, stats),
        }
    }
}

proof fn lemma_fetched_as_push<F: Fetcher>(
    f: &F,
    mailboxes: Seq<String>,
    outcomes: Seq<Option<Seq<Item>>>,
    o: Option<Seq<Item>>,
)
    requires
        fetched_as(f, mailboxes, outcomes),
        outcomes.len() < mailboxes.len(),
        match o {
            Some(b) => f.yields(mailboxes[outcomes.len() as int]@, Ok(b)),
            None => exists|e: Seq<char>| f.yields(mailboxes[outcomes.len() as int]@, Err(e)),
        },
    ensures
        fetched_as(f, mailboxes, outcomes.push(o)),
{
    let q = outcomes.push(o);
    assert forall|k: int| 0 <= k < mailboxes.len() && k < q.len() implies match #[trigger] q[k] {
        Some(b) => f.yields(mailboxes[k]@, Ok(b)),
        None => exists|e: Seq<char>| f.yields(mailboxes[k]@, Err(e)),
    } by {
        if k < outcomes.len() {
            assert(q[k] == outcomes[k]);
        }
    }
}

/// The mailboxes a fetch covers: the chosen ones, or else those the fetcher
/// suggests, or else just "INBOX" when the suggestion failed.
pub fn resolve_mailboxes(selected: Vec<String>, suggested: Option<Vec<String>>) -> (r: Vec<String>)
    ensures
        selected@.len() > 0 ==> r@ == selected@,
        selected@.len() == 0 ==> match suggested {
            Some(s) => r@ == s@,
            None => r@.len() == 1 && r@[0]@ == "INBOX"@,
        },
{
    if selected.len() > 0 {
        selected
    } else {
        match suggested {
            Some(s) => s,
            None => {
                let mut v: Vec<String> = Vec::new();
                v.push("INBOX".to_owned());
                v
            },
        }
    }
}

/// Fetches every chosen mailbox (see `resolve_mailboxes`) and stores the new
/// items. A mailbox whose fetch fails is skipped. Each mailbox that was
/// fetched is added with `FetchResult::absorb_mailbox`, in order; the result
/// is consistent (see `consistent`). Errors of the store are passed on; with
/// a store that never fails (see `Storage::reliable`) it succeeds.
pub fn fetch_items<S: Storage, F: Fetcher>(storage: &mut S, fetcher: &F) -> (r: Result<FetchResult, String>)
    ensures
        old(storage).reliable() ==> r is Ok,
        r matches Ok(fr) ==> consistent(fr),
        r matches Ok(fr) ==> exists|mailboxes: Seq<String>, outcomes: Seq<Option<Seq<Item>>>|
            {
                &&& outcomes.len() == mailboxes.len()
                &&& fetched_as(fetcher, mailboxes, outcomes)
                &&& old(storage).modelled() && old(storage).held_mailboxes().len() > 0 ==> mailboxes
                    == old(storage).held_mailboxes()
                &&& old(storage).modelled() && old(storage).held_mailboxes().len() == 0 ==> {
                    ||| exists|all: Seq<String>| #[trigger] fetcher.lists(Ok(all)) && is_suggestion(
                        mailboxes,
                        all,
                    )
                    ||| (exists|e: Seq<char>| fetcher.lists(Err(e))) && mailboxes.len() == 1
                        && mailboxes[0]@ == "INBOX"@
                }
                &&& (fr.items@, fr.per_mailbox@) == gathered(mailboxes, outcomes)
            },
        old(storage).modelled() ==> (r matches Ok(fr) ==> {
            &&& final(storage).held_items() == old(storage).held_items() + unseen_items(
                old(storage).held_items(),
                fr.items@,
            )
            &&& final(storage).held_digest() == old(storage).held_digest()
            &&& final(storage).held_mailboxes() == old(storage).held_mailboxes()
        }),
{
    let selected = storage.get_selected_mailboxes()?;
    let suggested = if selected.len() == 0 {
        fetcher.suggested_mailboxes().ok()
    } else {
        None
    };
    let mailboxes = resolve_mailboxes(selected, suggested);
    let mut result = FetchResult { items: Vec::new(), per_mailbox: Vec::new() };
    let ghost mut outcomes: Seq<Option<Seq<Item>>> = Seq::empty();
    let mut i: usize = 0;
    while i < mailboxes.len()
        invariant
            i <= mailboxes.len(),
            consistent(result),
            outcomes.len() == i,
            fetched_as(fetcher, mailboxes@, outcomes),
            (result.items@, result.per_mailbox@) == gathered(mailboxes@.take(i as int), outcomes),
        decreases mailboxes.len() - i,
    {
        proof {
            let m = mailboxes@.take(i + 1);
            assert(m.drop_last() == mailboxes@.take(i as int));
            assert(m.last() == mailboxes@[i as int]);
        }
        match fetcher.fetch_mailbox(mailboxes[i].as_str()) {
            Ok(batch) => {
                let ghost old_r = result;
                let ghost old_outcomes = outcomes;
                let ghost b = batch@;
                let _n = batch.len();
                result.absorb_mailbox(&mailboxes[i], batch);
                proof {
                    lemma_absorbed_grows(old_r.items@, b, mailboxes@[i as int]);
                    let ps = result.per_mailbox@;
                    assert(ps.drop_last() == old_r.per_mailbox@);
                    let last = ps.len() - 1;
                    assert(result.items@ == absorbed(old_r.items@, b, mailboxes@[i as int]));
                    assert(ps[last].total == b.len());
                    assert(ps[last].new == result.items@.len() - old_r.items@.len());
                    assert(sum_new(ps) == sum_new(old_r.per_mailbox@) + ps[last].new);
                    assert forall|k: int| 0 <= k < ps.len() implies (#[trigger] ps[k]).new <= ps[k].total by {
                        if k < last {
                            assert(ps[k] == old_r.per_mailbox@[k]);
                        }
                    }
                    lemma_fetched_as_push(fetcher, mailboxes@, outcomes, Some(b));
                    outcomes = outcomes.push(Some(b));
                    assert(outcomes.drop_last() == old_outcomes);
                    assert forall|j: int| 0 <= j < result.items@.len() implies exists|k: int| 0 <= k < ps.len() && (#[trigger] result.items@[j]).mailbox == (#[trigger] ps[k]).name by {
                        if j < old_r.items@.len() {
                            assert(result.items@.take(old_r.items@.len() as int)[j] == result.items@[j]);
                            let k = choose|k: int| 0 <= k < old_r.per_mailbox@.len() && (#[trigger] old_r.items@[j]).mailbox == (#[trigger] old_r.per_mailbox@[k]).name;
                            assert(ps[k] == old_r.per_mailbox@[k]);
                        } else {
                            assert(ps[last].name == mailboxes@[i as int]);
                        }
                    }
                }
            },
            Err(e) => {
                proof {
                    let old_outcomes = outcomes;
                    assert(fetcher.yields(mailboxes@[i as int]@, Err(e@)));
                    lemma_fetched_as_push(fetcher, mailboxes@, outcomes, None);
                    outcomes = outcomes.push(None);
                    assert(outcomes.drop_last() == old_outcomes);
                }
            },
        }
        i += 1;
    }
    assert(mailboxes@.take(mailboxes@.len() as int) == mailboxes@);
    storage.store_items(result.items.as_slice())?;
    Ok(result)
}

} // verus!
