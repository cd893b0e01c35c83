//! Where fetched items, the latest digest, the chosen mailboxes and the
//! settings are kept: the `Storage` interface, an in-memory store, and the
//! per-source tally that stores report.
use vstd::prelude::*;
use crate::clock::{ordinary_time, parse_rfc3339, rfc3339_moment, rfc3339_of, rfc3339_text};
use crate::config::AppConfig;
use crate::text::{
    lemma_text_less_irreflexive, lemma_text_less_total, lemma_text_less_transitive, same_text,
    text_less, text_less_exec,
};
use crate::{Digest, DigestView, Item};

verus! {

/// A place that keeps items, the latest digest, the mailboxes chosen for
/// fetching and the settings. Errors are reported as messages.
///
/// What the methods promise of the store's contents holds of a store that the
/// library models (see `modelled`), such as `InMemoryStorage`. A store kept
/// outside the verified library cannot define the spec functions below; for
/// it `modelled` and `reliable` are false and nothing is promised.
pub trait Storage {
    /// Whether the library models this store: its contents are what
    /// `held_items`, `held_digest`, `held_mailboxes` and `held_config` say,
    /// and the methods keep the promises below. False unless the store says
    /// otherwise; the contents of a store that is not modelled are left
    /// unspecified.
    closed spec fn modelled(&self) -> bool {
        false
    }

    /// The store's operations never fail. False unless the store says
    /// otherwise.
    closed spec fn reliable(&self) -> bool {
        false
    }

    /// The items held by a modelled store.
    closed spec fn held_items(&self) -> Seq<Item> {
        arbitrary()
    }

    /// The digest held by a modelled store, if any.
    closed spec fn held_digest(&self) -> Option<DigestView> {
        arbitrary()
    }

    /// The mailboxes chosen for fetching, as a modelled store gives them back.
    closed spec fn held_mailboxes(&self) -> Seq<String> {
        arbitrary()
    }

    /// The settings held by a modelled store.
    closed spec fn held_config(&self) -> AppConfig {
        arbitrary()
    }

    /// Adds the items whose ids are not stored yet (see `unseen_items`); the
    /// digest and the chosen mailboxes stay as they are.
    fn store_items(&mut self, items: &[Item]) -> (r: Result<(), String>)
        ensures
            old(self).reliable() ==> r is Ok && final(self).reliable(),
            old(self).modelled() ==> final(self).modelled(),
            old(self).modelled() && r is Ok ==> {
                &&& final(self).held_items() == old(self).held_items() + unseen_items(
                    old(self).held_items(),
                    items@,
                )
                &&& final(self).held_digest() == old(self).held_digest()
                &&& final(self).held_mailboxes() == old(self).held_mailboxes()
            },
    ;

    /// The stored items.
    fn get_items(&self) -> (r: Result<Vec<Item>, String>)
        ensures
            self.reliable() ==> r is Ok,
            self.modelled() ==> (r matches Ok(v) ==> v@ == self.held_items()),
    ;

    /// Removes all items and the digest; the chosen mailboxes stay.
    fn clear(&mut self) -> (r: Result<(), String>)
        ensures
            old(self).reliable() ==> r is Ok && final(self).reliable(),
            old(self).modelled() ==> final(self).modelled(),
            old(self).modelled() && r is Ok ==> {
                &&& final(self).held_items().len() == 0
                &&& final(self).held_digest() is None
                &&& final(self).held_mailboxes() == old(self).held_mailboxes()
            },
    ;

    /// Keeps `digest` as the latest digest; the items and the chosen
    /// mailboxes stay as they are. A failed store leaves the digest and the
    /// items as they were.
    fn store_digest(&mut self, digest: &Digest) -> (r: Result<(), String>)
        ensures
            old(self).reliable() ==> r is Ok && final(self).reliable(),
            old(self).modelled() ==> final(self).modelled(),
            old(self).modelled() && r is Err ==> final(self).held_digest() == old(self).held_digest()
                && final(self).held_items() == old(self).held_items(),
            old(self).modelled() && r is Ok ==> {
                &&& final(self).held_digest() == Some(digest@)
                &&& final(self).held_items() == old(self).held_items()
                &&& final(self).held_mailboxes() == old(self).held_mailboxes()
            },
    ;

    /// The latest digest, if one was stored.
    fn get_digest(&self) -> (r: Result<Option<Digest>, String>)
        ensures
            self.reliable() ==> r is Ok,
            self.modelled() ==> (r matches Ok(d) ==> match d {
                Some(d) => self.held_digest() == Some(d@),
                None => self.held_digest() is None,
            }),
    ;

    /// The mailboxes chosen for fetching.
    fn get_selected_mailboxes(&self) -> (r: Result<Vec<String>, String>)
        ensures
            self.reliable() ==> r is Ok,
            self.modelled() ==> (r matches Ok(v) ==> v@ == self.held_mailboxes()),
    ;

    /// Replaces the mailboxes chosen for fetching; the items and the digest
    /// stay as they are. (How the store gives the mailboxes back, in which
    /// order, is its own: see `held_mailboxes`.)
    fn set_selected_mailboxes(&mut self, mailboxes: &[String]) -> (r: Result<(), String>)
        ensures
            old(self).reliable() ==> r is Ok && final(self).reliable(),
            old(self).modelled() ==> final(self).modelled(),
            old(self).modelled() && r is Ok ==> final(self).held_items() == old(self).held_items()
                && final(self).held_digest() == old(self).held_digest(),
    ;

    /// How many stored items came from each source, ordered by source.
    fn get_item_counts_by_source(&self) -> (r: Result<Vec<(String, usize)>, String>)
        ensures
            self.reliable() ==> r is Ok,
            self.modelled() ==> (r matches Ok(t) ==> is_source_tally(self.held_items(), t@)),
    ;

    /// How many stored items came from each source and mailbox, ordered by
    /// source and then mailbox.
    fn get_item_counts_by_mailbox(&self) -> (r: Result<Vec<(String, String, usize)>, String>)
        ensures
            self.reliable() ==> r is Ok,
            self.modelled() ==> (r matches Ok(t) ==> is_mailbox_tally(self.held_items(), t@)),
    ;

    /// The stored settings.
    fn get_app_config(&self) -> (r: Result<AppConfig, String>)
        ensures
            self.reliable() ==> r is Ok,
            self.modelled() ==> (r matches Ok(c) ==> c == self.held_config()),
    ;

    /// Replaces the stored settings, so that they read back as `cfg`; the
    /// items, the digest and the chosen mailboxes stay as they are.
    fn set_app_config(&mut self, cfg: &AppConfig) -> (r: Result<(), String>)
        ensures
            old(self).reliable() ==> r is Ok && final(self).reliable(),
            old(self).modelled() ==> final(self).modelled(),
            old(self).modelled() && r is Ok ==> {
                &&& final(self).held_config() == *cfg
                &&& final(self).held_items() == old(self).held_items()
                &&& final(self).held_digest() == old(self).held_digest()
                &&& final(self).held_mailboxes() == old(self).held_mailboxes()
            },
    ;
}

/// How many items of `items` came from source `src`.
pub open spec fn count_with_source(items: Seq<Item>, src: Seq<char>) -> nat
    decreases items.len(),
{
    if items.len() == 0 {
        0
    } else {
        count_with_source(items.drop_last(), src) + if items.last().source@ == src {
            1nat
        } else {
            0nat
        }
    }
}

/// `t` is the tally of `items` by source: one entry per source that occurs,
/// in increasing order of source, each with the number of items from it.
pub open spec fn is_source_tally(items: Seq<Item>, t: Seq<(String, usize)>) -> bool {
    &&& forall|j: int, k: int| 0 <= j < k < t.len() ==> text_less(#[trigger] t[j].0@, #[trigger] t[k].0@)
    &&& forall|j: int|
        0 <= j < t.len() ==> #[trigger] t[j].1 == count_with_source(items, t[j].0@) && t[j].1 > 0
    &&& forall|i: int| 0 <= i < items.len() ==> source_listed(t, (#[trigger] items[i]).source@)
}

/// Some entry of `t` is for source `src`.
pub open spec fn source_listed(t: Seq<(String, usize)>, src: Seq<char>) -> bool {
    exists|j: int| 0 <= j < t.len() && (#[trigger] t[j]).0@ == src
}

proof fn lemma_count_bound(items: Seq<Item>, src: Seq<char>)
    ensures
        count_with_source(items, src) <= items.len(),
        (forall|i: int| 0 <= i < items.len() ==> (#[trigger] items[i]).source@ != src)
            ==> count_with_source(items, src) == 0,
    decreases items.len(),
{
    if items.len() > 0 {
        lemma_count_bound(items.drop_last(), src);
        if forall|i: int| 0 <= i < items.len() ==> (#[trigger] items[i]).source@ != src {
            assert forall|i: int| 0 <= i < items.drop_last().len() implies (
            #[trigger] items.drop_last()[i]).source@ != src by {
                assert(items.drop_last()[i] == items[i]);
            }
            assert(items.last() == items[items.len() - 1]);
        }
    }
}

/// Tallies `items` by source (see `is_source_tally`).
pub fn tally_by_source(items: &[Item]) -> (t: Vec<(String, usize)>)
    ensures
        is_source_tally(items@, t@),
{
    let mut t: Vec<(String, usize)> = Vec::new();
    let mut i: usize = 0;
    while i < items.len()
        invariant
            i <= items.len(),
            is_source_tally(items@.take(i as int), t@),
        decreases items.len() - i,
    {
        let ghost pre = items@.take(i as int);
        let ghost post = items@.take(i + 1);
        proof {
            assert(post.drop_last() == pre);
            assert(post.last() == items@[i as int]);
        }
        let src = &items[i].source;
        let mut j: usize = 0;
        while j < t.len() && text_less_exec(t[j].0.as_str(), src.as_str())
            invariant
                j <= t.len(),
                forall|m: int| 0 <= m < j ==> text_less(#[trigger] t@[m].0@, src@),
            decreases t.len() - j,
        {
            j += 1;
        }
        if j < t.len() && same_text(t[j].0.as_str(), src.as_str()) {
            let c = t[j].1;
            proof {
                lemma_count_bound(pre, src@);
            }
            let name = t[j].0.clone();
            let ghost old_t = t@;
            t.set(j, (name, c + 1));
            proof {
                assert forall|k: int| 0 <= k < t@.len() implies #[trigger] t@[k].1
                    == count_with_source(post, t@[k].0@) && t@[k].1 > 0 by {
                    if k != j {
                        assert(t@[k] == old_t[k]);
                    }
                    if k != j && t@[k].0@ == src@ {
                        if k < j {
                            lemma_text_less_irreflexive(src@);
                            assert(text_less(old_t[k].0@, old_t[j as int].0@));
                        } else {
                            assert(text_less(old_t[j as int].0@, old_t[k].0@));
                            lemma_text_less_irreflexive(src@);
                        }
                    }
                }
                assert forall|m: int| 0 <= m < post.len() implies source_listed(t@, (#[trigger] post[m]).source@) by {
                    if m < pre.len() {
                        assert(post[m] == pre[m]);
                        assert(source_listed(old_t, pre[m].source@));
                        let k = choose|k: int| 0 <= k < old_t.len() && (#[trigger] old_t[k]).0@ == pre[m].source@;
                        assert(t@[k].0@ == old_t[k].0@);
                    } else {
                        assert(t@[j as int].0@ == post[m].source@);
                    }
                }
                assert forall|a: int, b: int| 0 <= a < b < t@.len() implies text_less(
                    #[trigger] t@[a].0@,
                    #[trigger] t@[b].0@,
                ) by {
                    assert(t@[a].0@ == old_t[a].0@ && t@[b].0@ == old_t[b].0@);
                }
            }
        } else {
            let ghost old_t = t@;
            proof {
                lemma_count_bound(pre, src@);
                assert forall|q: int| 0 <= q < pre.len() implies (#[trigger] pre[q]).source@
                    != src@ by {
                    assert(source_listed(old_t, pre[q].source@));
                    let k = choose|k: int| 0 <= k < old_t.len() && (#[trigger] old_t[k]).0@ == pre[q].source@;
                    if k < j {
                        lemma_text_less_irreflexive(src@);
                    } else if k == j {
                    } else {
                        lemma_text_less_total(old_t[j as int].0@, src@);
                        lemma_text_less_transitive(src@, old_t[j as int].0@, old_t[k].0@);
                        lemma_text_less_irreflexive(src@);
                    }
                }
            }
            t.insert(j, (src.clone(), 1));
            proof {
                assert forall|a: int, b: int| 0 <= a < b < t@.len() implies text_less(
                    #[trigger] t@[a].0@,
                    #[trigger] t@[b].0@,
                ) by {
                    if b == j {
                        assert(t@[a] == old_t[a]);
                    } else if a == j {
                        assert(t@[b] == old_t[b - 1]);
                        lemma_text_less_total(old_t[j as int].0@, src@);
                        if b - 1 > j {
                            lemma_text_less_transitive(src@, old_t[j as int].0@, old_t[b - 1].0@);
                        }
                    } else if a < j && b > j {
                        assert(t@[a] == old_t[a]);
                        assert(t@[b] == old_t[b - 1]);
                        assert(text_less(old_t[a].0@, old_t[b - 1].0@));
                    } else if a > j {
                        assert(t@[a] == old_t[a - 1]);
                        assert(t@[b] == old_t[b - 1]);
                    } else {
                        assert(t@[a] == old_t[a]);
                        assert(t@[b] == old_t[b]);
                    }
                }
                assert forall|k: int| 0 <= k < t@.len() implies #[trigger] t@[k].1
                    == count_with_source(post, t@[k].0@) && t@[k].1 > 0 by {
                    if k < j {
                        assert(t@[k] == old_t[k]);
                        lemma_text_less_irreflexive(src@);
                    } else if k > j {
                        assert(t@[k] == old_t[k - 1]);
                        lemma_text_less_total(old_t[j as int].0@, src@);
                        if k - 1 > j {
                            lemma_text_less_transitive(src@, old_t[j as int].0@, old_t[k - 1].0@);
                        }
                        lemma_text_less_irreflexive(src@);
                    }
                }
                assert forall|m: int| 0 <= m < post.len() implies source_listed(t@, (#[trigger] post[m]).source@) by {
                    if m < pre.len() {
                        assert(post[m] == pre[m]);
                        assert(source_listed(old_t, pre[m].source@));
                        let k = choose|k: int| 0 <= k < old_t.len() && (#[trigger] old_t[k]).0@ == pre[m].source@;
                        if k < j {
                            assert(t@[k] == old_t[k]);
                        } else {
                            assert(t@[k + 1] == old_t[k]);
                        }
                    } else {
                        assert(t@[j as int].0@ == post[m].source@);
                    }
                }
            }
        }
        i += 1;
    }
    proof {
        assert(items@.take(items@.len() as int) == items@);
    }
    t
}

} // verus!

verus! {

/// Some item of `s` has id `id`.
pub open spec fn has_id(s: Seq<Item>, id: Seq<char>) -> bool {
    exists|j: int| 0 <= j < s.len() && (#[trigger] s[j]).id@ == id
}

/// The items of `batch` whose ids do not occur in `existing`, in order.
/// (Two items of the batch itself with the same id are both kept.)
pub open spec fn unseen_items(existing: Seq<Item>, batch: Seq<Item>) -> Seq<Item>
    decreases batch.len(),
{
    if batch.len() == 0 {
        Seq::empty()
    } else {
        let prev = unseen_items(existing, batch.drop_last());
        if has_id(existing, batch.last().id@) {
            prev
        } else {
            prev.push(batch.last())
        }
    }
}

/// A copy of every item of `v`.
pub fn copy_items(v: &[Item]) -> (r: Vec<Item>)
    ensures
        r@ == v@,
{
    let mut r: Vec<Item> = Vec::new();
    let mut i: usize = 0;
    while i < v.len()
        invariant
            i <= v.len(),
            r@ == v@.take(i as int),
        decreases v.len() - i,
    {
        r.push(v[i].duplicate());
        i += 1;
        assert(r@ =~= v@.take(i as int));
    }
    assert(v@.take(v@.len() as int) == v@);
    r
}

/// A copy of every string of `v`.
pub fn copy_strings(v: &[String]) -> (r: Vec<String>)
    ensures
        r@ == v@,
{
    let mut r: Vec<String> = Vec::new();
    let mut i: usize = 0;
    while i < v.len()
        invariant
            i <= v.len(),
            r@ == v@.take(i as int),
        decreases v.len() - i,
    {
        r.push(v[i].clone());
        i += 1;
        assert(r@ =~= v@.take(i as int));
    }
    assert(v@.take(v@.len() as int) == v@);
    r
}

impl Digest {
    /// A field-by-field copy of the digest.
    pub fn duplicate(&self) -> (r: Digest)
        ensures
            r@ == self@,
    {
        let mut by_source: Vec<(String, usize)> = Vec::new();
        let mut i: usize = 0;
        while i < self.by_source.len()
            invariant
                i <= self.by_source.len(),
                by_source@ == self.by_source@.take(i as int),
            decreases self.by_source.len() - i,
        {
            by_source.push((self.by_source[i].0.clone(), self.by_source[i].1));
            i += 1;
            assert(by_source@ =~= self.by_source@.take(i as int));
        }
        assert(self.by_source@.take(self.by_source@.len() as int) == self.by_source@);
        Digest {
            total_items: self.total_items,
            by_source,
            summary: self.summary.clone(),
            generated_at: self.generated_at,
        }
    }
}

/// A store that keeps everything in memory, for tests and short-lived use.
pub struct InMemoryStorage {
    items: Vec<Item>,
    digest: Option<Digest>,
    selected_mailboxes: Vec<String>,
    app_config: AppConfig,
}

impl InMemoryStorage {
    /// The stored items, in the order in which they were stored.
    pub closed spec fn stored_items(&self) -> Seq<Item> {
        self.items@
    }

    /// The latest digest.
    pub closed spec fn stored_digest(&self) -> Option<DigestView> {
        match self.digest {
            Some(d) => Some(d@),
            None => None,
        }
    }

    /// The mailboxes chosen for fetching.
    pub closed spec fn stored_mailboxes(&self) -> Seq<String> {
        self.selected_mailboxes@
    }

    /// The stored settings.
    pub closed spec fn stored_config(&self) -> AppConfig {
        self.app_config
    }

    /// An empty store with the default settings.
    pub fn new() -> (s: Self)
        ensures
            s.stored_items().len() == 0,
            s.stored_digest() is None,
            s.stored_mailboxes().len() == 0,
            s.stored_config().imap_host@ == "imap.gmail.com"@,
            s.stored_config().imap_port == 993,
            s.stored_config().imap_username@.len() == 0,
            s.stored_config().imap_password@.len() == 0,
            s.stored_config().ollama_base_url@ == "http://localhost:11434"@,
            s.stored_config().ollama_model@ == "qwen2.5-coder:7b"@,
    {
        Self {
            items: Vec::new(),
            digest: None,
            selected_mailboxes: Vec::new(),
            app_config: AppConfig::defaults(),
        }
    }
}

impl Default for InMemoryStorage {
    fn default() -> (s: Self)
        ensures
            s.stored_items().len() == 0,
            s.stored_digest() is None,
            s.stored_mailboxes().len() == 0,
    {
        Self::new()
    }
}

impl Storage for InMemoryStorage {
    open spec fn held_items(&self) -> Seq<Item> {
        self.stored_items()
    }

    open spec fn held_digest(&self) -> Option<DigestView> {
        self.stored_digest()
    }

    open spec fn held_mailboxes(&self) -> Seq<String> {
        self.stored_mailboxes()
    }

    open spec fn reliable(&self) -> bool {
        true
    }

    open spec fn modelled(&self) -> bool {
        true
    }

    open spec fn held_config(&self) -> AppConfig {
        self.stored_config()
    }

    fn store_items(&mut self, items: &[Item]) -> (r: Result<(), String>)
        ensures
            r is Ok,
            final(self).stored_items() == old(self).stored_items() + unseen_items(
                old(self).stored_items(),
                items@,
            ),
            final(self).stored_digest() == old(self).stored_digest(),
            final(self).stored_mailboxes() == old(self).stored_mailboxes(),
            final(self).stored_config() == old(self).stored_config(),
    {
        let n = self.items.len();
        let ghost existing = self.items@;
        let mut i: usize = 0;
        while i < items.len()
            invariant
                i <= items.len(),
                n == existing.len(),
                self.items@ == existing + unseen_items(existing, items@.take(i as int)),
                self.digest == old(self).digest,
                self.selected_mailboxes == old(self).selected_mailboxes,
                self.app_config == old(self).app_config,
                existing == old(self).items@,
            decreases items.len() - i,
        {
            proof {
                let p = items@.take(i + 1);
                assert(p.drop_last() == items@.take(i as int));
                assert(p.last() == items@[i as int]);
            }
            let mut k: usize = 0;
            let mut seen = false;
            while k < n && !seen
                invariant
                    i < items.len(),
                    k <= n,
                    n == existing.len(),
                    n <= self.items.len(),
                    self.items@.take(n as int) == existing,
                    seen ==> has_id(existing, items@[i as int].id@),
                    !seen ==> forall|m: int| 0 <= m < k ==> (#[trigger] existing[m]).id@ != items@[
                        i as int].id@,
                decreases n - k + if seen { 0int } else { 1int },
            {
                assert(self.items@[k as int] == existing[k as int]);
                if self.items[k].id == items[i].id {
                    seen = true;
                } else {
                    k += 1;
                }
            }
            if !seen {
                self.items.push(items[i].duplicate());
            }
            i += 1;
        }
        proof {
            assert(items@.take(items@.len() as int) == items@);
        }
        Ok(())
    }

    fn get_items(&self) -> (r: Result<Vec<Item>, String>)
        ensures
            r matches Ok(v) && v@ == self.stored_items(),
    {
        Ok(copy_items(self.items.as_slice()))
    }

    fn clear(&mut self) -> (r: Result<(), String>)
        ensures
            r is Ok,
            final(self).stored_items().len() == 0,
            final(self).stored_digest() is None,
            final(self).stored_mailboxes() == old(self).stored_mailboxes(),
            final(self).stored_config() == old(self).stored_config(),
    {
        self.items.clear();
        self.digest = None;
        Ok(())
    }

    fn store_digest(&mut self, digest: &Digest) -> (r: Result<(), String>)
        ensures
            r is Ok,
            final(self).stored_digest() == Some(digest@),
            final(self).stored_items() == old(self).stored_items(),
            final(self).stored_mailboxes() == old(self).stored_mailboxes(),
            final(self).stored_config() == old(self).stored_config(),
    {
        self.digest = Some(digest.duplicate());
        Ok(())
    }

    fn get_digest(&self) -> (r: Result<Option<Digest>, String>)
        ensures
            r matches Ok(d) && match d {
                Some(d) => self.stored_digest() == Some(d@),
                None => self.stored_digest() is None,
            },
    {
        match &self.digest {
            Some(d) => Ok(Some(d.duplicate())),
            None => Ok(None),
        }
    }

    fn get_selected_mailboxes(&self) -> (r: Result<Vec<String>, String>)
        ensures
            r matches Ok(v) && v@ == self.stored_mailboxes(),
    {
        Ok(copy_strings(self.selected_mailboxes.as_slice()))
    }

    fn set_selected_mailboxes(&mut self, mailboxes: &[String]) -> (r: Result<(), String>)
        ensures
            r is Ok,
            final(self).stored_mailboxes() == mailboxes@,
            final(self).stored_items() == old(self).stored_items(),
            final(self).stored_digest() == old(self).stored_digest(),
            final(self).stored_config() == old(self).stored_config(),
    {
        self.selected_mailboxes = copy_strings(mailboxes);
        Ok(())
    }

    fn get_item_counts_by_source(&self) -> (r: Result<Vec<(String, usize)>, String>)
        ensures
            r matches Ok(t) && is_source_tally(self.stored_items(), t@),
    {
        Ok(tally_by_source(self.items.as_slice()))
    }

    fn get_item_counts_by_mailbox(&self) -> (r: Result<Vec<(String, String, usize)>, String>)
        ensures
            r matches Ok(t) && is_mailbox_tally(self.stored_items(), t@),
    {
        Ok(tally_by_mailbox(self.items.as_slice()))
    }

    fn get_app_config(&self) -> (r: Result<AppConfig, String>)
        ensures
            r == Ok::<AppConfig, String>(self.stored_config()),
    {
        Ok(self.app_config.duplicate())
    }

    fn set_app_config(&mut self, cfg: &AppConfig) -> (r: Result<(), String>)
        ensures
            r is Ok,
            final(self).stored_config() == *cfg,
            final(self).stored_items() == old(self).stored_items(),
            final(self).stored_digest() == old(self).stored_digest(),
            final(self).stored_mailboxes() == old(self).stored_mailboxes(),
    {
        self.app_config = cfg.duplicate();
        Ok(())
    }
}

} // verus!

verus! {

/// The sum of the counts of `t`.
pub open spec fn tally_total(t: Seq<(String, usize)>) -> nat
    decreases t.len(),
{
    if t.len() == 0 {
        0
    } else {
        tally_total(t.drop_last()) + t.last().1 as nat
    }
}

/// The number of items of `items` from the sources named in `t`, source by
/// source.
spec fn listed_count(items: Seq<Item>, t: Seq<(String, usize)>) -> nat
    decreases t.len(),
{
    if t.len() == 0 {
        0
    } else {
        listed_count(items, t.drop_last()) + count_with_source(items, t.last().0@)
    }
}

/// How many entries of `t` are for source `src`.
spec fn occurrences(t: Seq<(String, usize)>, src: Seq<char>) -> nat
    decreases t.len(),
{
    if t.len() == 0 {
        0
    } else {
        occurrences(t.drop_last(), src) + if t.last().0@ == src {
            1nat
        } else {
            0nat
        }
    }
}

proof fn lemma_listed_count_step(items: Seq<Item>, t: Seq<(String, usize)>)
    requires
        items.len() > 0,
    ensures
        listed_count(items, t) == listed_count(items.drop_last(), t) + occurrences(
            t,
            items.last().source@,
        ),
    decreases t.len(),
{
    if t.len() > 0 {
        lemma_listed_count_step(items, t.drop_last());
    }
}

proof fn lemma_occurrences_distinct(t: Seq<(String, usize)>, src: Seq<char>)
    requires
        forall|j: int, k: int| 0 <= j < k < t.len() ==> (#[trigger] t[j]).0@ != (#[trigger] t[k]).0@,
    ensures
        source_listed(t, src) ==> occurrences(t, src) == 1,
        !source_listed(t, src) ==> occurrences(t, src) == 0,
    decreases t.len(),
{
    if t.len() > 0 {
        let init = t.drop_last();
        assert forall|j: int, k: int| 0 <= j < k < init.len() implies (#[trigger] init[j]).0@ != (#[trigger] init[k]).0@ by {
            assert(init[j] == t[j] && init[k] == t[k]);
        }
        lemma_occurrences_distinct(init, src);
        if t.last().0@ == src {
            assert(t[t.len() - 1] == t.last());
            if source_listed(init, src) {
                let j = choose|j: int| 0 <= j < init.len() && (#[trigger] init[j]).0@ == src;
                assert(init[j] == t[j]);
            }
        } else {
            if source_listed(t, src) {
                let j = choose|j: int| 0 <= j < t.len() && (#[trigger] t[j]).0@ == src;
                assert(init[j] == t[j]);
            }
            if source_listed(init, src) {
                let j = choose|j: int| 0 <= j < init.len() && (#[trigger] init[j]).0@ == src;
                assert(init[j] == t[j]);
            }
        }
    }
}

proof fn lemma_listed_count_all(items: Seq<Item>, t: Seq<(String, usize)>)
    requires
        forall|j: int, k: int| 0 <= j < k < t.len() ==> (#[trigger] t[j]).0@ != (#[trigger] t[k]).0@,
        forall|i: int| 0 <= i < items.len() ==> source_listed(t, (#[trigger] items[i]).source@),
    ensures
        listed_count(items, t) == items.len(),
    decreases items.len(),
{
    if items.len() == 0 {
        lemma_listed_count_empty(items, t);
    } else {
        let init = items.drop_last();
        assert forall|i: int| 0 <= i < init.len() implies source_listed(t, (#[trigger] init[i]).source@) by {
            assert(init[i] == items[i]);
        }
        lemma_listed_count_all(init, t);
        lemma_listed_count_step(items, t);
        assert(items[items.len() - 1] == items.last());
        lemma_occurrences_distinct(t, items.last().source@);
    }
}

proof fn lemma_listed_count_empty(items: Seq<Item>, t: Seq<(String, usize)>)
    requires
        items.len() == 0,
    ensures
        listed_count(items, t) == 0,
    decreases t.len(),
{
    if t.len() > 0 {
        lemma_listed_count_empty(items, t.drop_last());
    }
}

proof fn lemma_total_is_listed_count(items: Seq<Item>, t: Seq<(String, usize)>)
    requires
        forall|j: int| 0 <= j < t.len() ==> #[trigger] t[j].1 == count_with_source(items, t[j].0@),
    ensures
        tally_total(t) == listed_count(items, t),
    decreases t.len(),
{
    if t.len() > 0 {
        let init = t.drop_last();
        assert forall|j: int| 0 <= j < init.len() implies #[trigger] init[j].1 == count_with_source(items, init[j].0@) by {
            assert(init[j] == t[j]);
        }
        lemma_total_is_listed_count(items, init);
        assert(t[t.len() - 1] == t.last());
    }
}

/// Counts, one per distinct source, that are exact and cover every item add
/// up to the number of items.
pub(crate) proof fn lemma_exact_counts_add_up(items: Seq<Item>, t: Seq<(String, usize)>)
    requires
        forall|j: int, k: int| 0 <= j < k < t.len() ==> (#[trigger] t[j]).0@ != (#[trigger] t[k]).0@,
        forall|j: int| 0 <= j < t.len() ==> #[trigger] t[j].1 == count_with_source(items, t[j].0@),
        forall|i: int| 0 <= i < items.len() ==> source_listed(t, (#[trigger] items[i]).source@),
    ensures
        tally_total(t) == items.len(),
{
    lemma_total_is_listed_count(items, t);
    lemma_listed_count_all(items, t);
}

/// Law: the counts of a tally by source add up to the number of items.
pub proof fn source_tally_adds_up(items: Seq<Item>, t: Seq<(String, usize)>)
    requires
        is_source_tally(items, t),
    ensures
        tally_total(t) == items.len(),
{
    assert forall|j: int, k: int| 0 <= j < k < t.len() implies (#[trigger] t[j]).0@ != (#[trigger] t[k]).0@ by {
        lemma_text_less_irreflexive(t[j].0@);
    }
    lemma_exact_counts_add_up(items, t);
}

/// The sum of the counts of `t`, or `usize::MAX` when the sum is larger.
pub fn total_count(t: &[(String, usize)]) -> (n: usize)
    ensures
        n == if tally_total(t@) <= usize::MAX {
            tally_total(t@)
        } else {
            usize::MAX as nat
        },
{
    let mut n: usize = 0;
    let mut capped = false;
    let mut i: usize = 0;
    while i < t.len()
        invariant
            i <= t.len(),
            capped ==> n == usize::MAX && tally_total(t@.take(i as int)) > usize::MAX,
            !capped ==> n == tally_total(t@.take(i as int)),
        decreases t.len() - i,
    {
        proof {
            let p = t@.take(i + 1);
            assert(p.drop_last() == t@.take(i as int));
            assert(p.last() == t@[i as int]);
        }
        if !capped {
            match n.checked_add(t[i].1) {
                Some(m) => {
                    n = m;
                },
                None => {
                    n = usize::MAX;
                    capped = true;
                },
            }
        }
        i += 1;
    }
    assert(t@.take(t@.len() as int) == t@);
    n
}

} // verus!

verus! {

/// How many items of `items` came from source `src` and mailbox `mb`.
pub open spec fn count_with_place(items: Seq<Item>, src: Seq<char>, mb: Seq<char>) -> nat
    decreases items.len(),
{
    if items.len() == 0 {
        0
    } else {
        count_with_place(items.drop_last(), src, mb) + if items.last().source@ == src
            && items.last().mailbox@ == mb {
            1nat
        } else {
            0nat
        }
    }
}

/// Entry `a` comes before entry `b`: by source, then by mailbox.
pub open spec fn place_less(a: (String, String, usize), b: (String, String, usize)) -> bool {
    text_less(a.0@, b.0@) || (a.0@ == b.0@ && text_less(a.1@, b.1@))
}

/// Some entry of `t` is for source `src` and mailbox `mb`.
pub open spec fn place_listed(t: Seq<(String, String, usize)>, src: Seq<char>, mb: Seq<char>) -> bool {
    exists|j: int| 0 <= j < t.len() && (#[trigger] t[j]).0@ == src && t[j].1@ == mb
}

/// `t` is the tally of `items` by source and mailbox: one entry per pair that
/// occurs, in increasing order of source and then mailbox, each with the
/// number of items from it.
pub open spec fn is_mailbox_tally(items: Seq<Item>, t: Seq<(String, String, usize)>) -> bool {
    &&& forall|j: int, k: int| 0 <= j < k < t.len() ==> place_less(#[trigger] t[j], #[trigger] t[k])
    &&& forall|j: int|
        0 <= j < t.len() ==> #[trigger] t[j].2 == count_with_place(items, t[j].0@, t[j].1@) && t[j].2
            > 0
    &&& forall|i: int|
        0 <= i < items.len() ==> place_listed(t, (#[trigger] items[i]).source@, items[i].mailbox@)
}

/// The items of `items` from source `src`, in order, each with its mailbox
/// put in place of its source.
pub open spec fn by_mailbox_of(items: Seq<Item>, src: Seq<char>) -> Seq<Item>
    decreases items.len(),
{
    if items.len() == 0 {
        Seq::empty()
    } else if items.last().source@ == src {
        by_mailbox_of(items.drop_last(), src).push(Item { source: items.last().mailbox, ..items.last() })
    } else {
        by_mailbox_of(items.drop_last(), src)
    }
}

proof fn lemma_by_mailbox_counts(items: Seq<Item>, src: Seq<char>, mb: Seq<char>)
    ensures
        count_with_source(by_mailbox_of(items, src), mb) == count_with_place(items, src, mb),
    decreases items.len(),
{
    if items.len() > 0 {
        lemma_by_mailbox_counts(items.drop_last(), src, mb);
        let prev = by_mailbox_of(items.drop_last(), src);
        if items.last().source@ == src {
            let q = prev.push(Item { source: items.last().mailbox, ..items.last() });
            assert(q.drop_last() == prev);
        }
    }
}

proof fn lemma_by_mailbox_covers(items: Seq<Item>, src: Seq<char>, i: int)
    requires
        0 <= i < items.len(),
        items[i].source@ == src,
    ensures
        exists|k: int|
            0 <= k < by_mailbox_of(items, src).len() && (#[trigger] by_mailbox_of(items, src)[k]).source@
                == items[i].mailbox@,
    decreases items.len(),
{
    let prev = by_mailbox_of(items.drop_last(), src);
    let whole = by_mailbox_of(items, src);
    if i < items.len() - 1 {
        assert(items.drop_last()[i] == items[i]);
        lemma_by_mailbox_covers(items.drop_last(), src, i);
        let k = choose|k: int| 0 <= k < prev.len() && (#[trigger] prev[k]).source@ == items[i].mailbox@;
        if items.last().source@ == src {
            assert(whole == prev.push(Item { source: items.last().mailbox, ..items.last() }));
            assert(whole[k] == prev[k]);
        } else {
            assert(whole == prev);
        }
        assert(whole[k].source@ == items[i].mailbox@);
    } else {
        assert(items.last() == items[i]);
        assert(whole == prev.push(Item { source: items.last().mailbox, ..items.last() }));
        assert(whole[prev.len() as int].source@ == items[i].mailbox@);
    }
}

fn items_by_mailbox(items: &[Item], src: &str) -> (r: Vec<Item>)
    ensures
        r@ == by_mailbox_of(items@, src@),
{
    let mut r: Vec<Item> = Vec::new();
    let mut i: usize = 0;
    while i < items.len()
        invariant
            i <= items.len(),
            r@ == by_mailbox_of(items@.take(i as int), src@),
        decreases items.len() - i,
    {
        proof {
            let p = items@.take(i + 1);
            assert(p.drop_last() == items@.take(i as int));
            assert(p.last() == items@[i as int]);
        }
        if same_text(items[i].source.as_str(), src) {
            let mut it = items[i].duplicate();
            it.source = items[i].mailbox.clone();
            r.push(it);
        }
        i += 1;
    }
    assert(items@.take(items@.len() as int) == items@);
    r
}

/// Text `s` is the source of one of the first `j` entries of `sources`.
spec fn source_among(s: Seq<char>, sources: Seq<(String, usize)>, j: int) -> bool {
    exists|m: int| 0 <= m < j && sources[m].0@ == s
}

/// Tallies `items` by source and mailbox (see `is_mailbox_tally`).
pub fn tally_by_mailbox(items: &[Item]) -> (t: Vec<(String, String, usize)>)
    ensures
        is_mailbox_tally(items@, t@),
{
    let sources = tally_by_source(items);
    let mut t: Vec<(String, String, usize)> = Vec::new();
    let mut j: usize = 0;
    while j < sources.len()
        invariant
            j <= sources.len(),
            is_source_tally(items@, sources@),
            forall|a: int, b: int| 0 <= a < b < t@.len() ==> place_less(#[trigger] t@[a], #[trigger] t@[b]),
            forall|a: int|
                0 <= a < t@.len() ==> #[trigger] t@[a].2 == count_with_place(items@, t@[a].0@, t@[a].1@)
                    && t@[a].2 > 0,
            forall|a: int| 0 <= a < t@.len() ==> source_among((#[trigger] t@[a]).0@, sources@, j as int),
            forall|i: int, m: int|
                0 <= i < items@.len() && 0 <= m < j && (#[trigger] items@[i]).source@ == (#[trigger] sources@[m]).0@
                    ==> place_listed(t@, items@[i].source@, items@[i].mailbox@),
        decreases sources.len() - j,
    {
        let src = &sources[j].0;
        let sub = items_by_mailbox(items, src.as_str());
        let mt = tally_by_source(sub.as_slice());
        let ghost before = t@;
        assert(t@.take(before.len() as int) =~= before);
        assert forall|a: int| 0 <= a < before.len() implies source_among((#[trigger] before[a]).0@, sources@, j as int) by {
            assert(before[a] == t@[a]);
        }
        let mut k: usize = 0;
        while k < mt.len()
            invariant
                j < sources.len(),
                k <= mt.len(),
                *src == sources@[j as int].0,
                sub@ == by_mailbox_of(items@, src@),
                is_source_tally(sub@, mt@),
                is_source_tally(items@, sources@),
                t@.len() == before.len() + k,
                t@.take(before.len() as int) == before,
                forall|q: int| 0 <= q < k ==> (#[trigger] t@[before.len() + q]).0@ == src@ && t@[before.len() + q].1
                    == mt@[q].0 && t@[before.len() + q].2 == mt@[q].1,
                forall|a: int| 0 <= a < before.len() ==> source_among((#[trigger] before[a]).0@, sources@, j as int),
                forall|a: int, b: int| 0 <= a < b < before.len() ==> place_less(#[trigger] before[a], #[trigger] before[b]),
                forall|a: int, b: int| 0 <= a < b < t@.len() ==> place_less(#[trigger] t@[a], #[trigger] t@[b]),
                forall|a: int|
                    0 <= a < t@.len() ==> #[trigger] t@[a].2 == count_with_place(items@, t@[a].0@, t@[a].1@)
                        && t@[a].2 > 0,
            decreases mt.len() - k,
        {
            let ghost prev = t@;
            let entry = (src.clone(), mt[k].0.clone(), mt[k].1);
            t.push(entry);
            proof {
                let n = before.len();
                assert(t@[n + k] == entry);
                assert forall|q: int| 0 <= q < k + 1 implies (#[trigger] t@[n + q]).0@ == src@ && t@[n + q].1
                    == mt@[q].0 && t@[n + q].2 == mt@[q].1 by {
                    if q < k {
                        assert(t@[n + q] == prev[n + q]);
                    }
                }
                assert(t@.take(n as int) =~= before) by {
                    assert forall|a: int| 0 <= a < n implies t@.take(n as int)[a] == before[a] by {
                        assert(prev.take(n as int)[a] == before[a]);
                        assert(t@[a] == prev[a]);
                    }
                }
                lemma_by_mailbox_counts(items@, src@, mt@[k as int].0@);
                assert forall|a: int| 0 <= a < t@.len() implies #[trigger] t@[a].2 == count_with_place(
                    items@,
                    t@[a].0@,
                    t@[a].1@,
                ) && t@[a].2 > 0 by {
                    if a < t@.len() - 1 {
                        assert(t@[a] == prev[a]);
                    }
                }
                assert forall|a: int, b: int| 0 <= a < b < t@.len() implies place_less(
                    #[trigger] t@[a],
                    #[trigger] t@[b],
                ) by {
                    if b < t@.len() - 1 {
                        assert(t@[a] == prev[a] && t@[b] == prev[b]);
                    } else if a < n {
                        assert(t@[a] == before[a]);
                        assert(source_among(before[a].0@, sources@, j as int));
                        let m = choose|m: int| 0 <= m < j && sources@[m].0@ == before[a].0@;
                        assert(text_less(sources@[m].0@, sources@[j as int].0@));
                    } else {
                        let q = a - n;
                        assert(t@[n + q].1 == mt@[q].0);
                        assert(text_less(mt@[q].0@, mt@[k as int].0@));
                    }
                }
            }
            k += 1;
        }
        proof {
            let n = before.len();
            assert forall|a: int| 0 <= a < t@.len() implies source_among((#[trigger] t@[a]).0@, sources@, j + 1) by {
                if a < n {
                    assert(t@.take(n as int)[a] == t@[a]);
                    assert(source_among(before[a].0@, sources@, j as int));
                    let m = choose|m: int| 0 <= m < j && sources@[m].0@ == before[a].0@;
                    assert(sources@[m].0@ == t@[a].0@);
                } else {
                    assert(t@[n + (a - n)].0@ == src@);
                    assert(sources@[j as int].0@ == t@[a].0@);
                }
            }
            assert forall|i: int, m: int|
                0 <= i < items@.len() && 0 <= m < j + 1 && (#[trigger] items@[i]).source@ == (
                #[trigger] sources@[m]).0@ implies place_listed(t@, items@[i].source@, items@[i].mailbox@) by {
                if m < j {
                    assert(place_listed(before, items@[i].source@, items@[i].mailbox@));
                    let a = choose|a: int| 0 <= a < before.len() && (#[trigger] before[a]).0@ == items@[i].source@
                        && before[a].1@ == items@[i].mailbox@;
                    assert(t@.take(n as int)[a] == t@[a]);
                } else {
                    lemma_by_mailbox_covers(items@, src@, i);
                    let kk = choose|kk: int| 0 <= kk < sub@.len() && (#[trigger] sub@[kk]).source@ == items@[i].mailbox@;
                    assert(source_listed(mt@, sub@[kk].source@));
                    let q = choose|q: int| 0 <= q < mt@.len() && (#[trigger] mt@[q]).0@ == sub@[kk].source@;
                    assert(t@[n + q].0@ == src@ && t@[n + q].1 == mt@[q].0);
                }
            }
        }
        j += 1;
    }
    proof {
        assert forall|i: int| 0 <= i < items@.len() implies place_listed(t@, (#[trigger] items@[i]).source@, items@[i].mailbox@) by {
            assert(source_listed(sources@, items@[i].source@));
            let m = choose|m: int| 0 <= m < sources@.len() && (#[trigger] sources@[m]).0@ == items@[i].source@;
        }
    }
    t
}

} // verus!

verus! {

/// `rows` are the per-source counts `by_source` as a database row keeps them:
/// the same sources, each count as an `i64`.
pub open spec fn counts_as_rows(by_source: Seq<(String, usize)>, rows: Seq<(String, i64)>) -> bool {
    &&& rows.len() == by_source.len()
    &&& forall|i: int|
        0 <= i < rows.len() ==> (#[trigger] rows[i]).0 == by_source[i].0 && rows[i].1
            == by_source[i].1 as i64
}

/// `row` is how a database keeps the digest `d`: its total as an `i64`, its
/// summary, its moment in RFC 3339 form (see `rfc3339_of`) and its per-source
/// counts (see `counts_as_rows`).
pub open spec fn is_row_of(d: Digest, row: (i64, String, String, Vec<(String, i64)>)) -> bool {
    &&& row.0 == d.total_items as i64
    &&& row.1@ == d.summary@
    &&& rfc3339_of(d.generated_at.secs, d.generated_at.nanos) == Some(row.2@)
    &&& ordinary_time(d.generated_at.secs, d.generated_at.nanos) ==> rfc3339_moment(row.2@) == Some(
        (d.generated_at.secs, d.generated_at.nanos),
    )
    &&& counts_as_rows(d.by_source@, row.3@)
}

/// How a database keeps the digest `d` (see `is_row_of`). A moment that
/// chrono cannot write is refused with a message.
pub fn digest_rows(d: &Digest) -> (r: Result<(i64, String, String, Vec<(String, i64)>), String>)
    ensures
        rfc3339_of(d.generated_at.secs, d.generated_at.nanos) is None <==> r is Err,
        ordinary_time(d.generated_at.secs, d.generated_at.nanos) ==> r is Ok,
        r matches Ok(row) ==> is_row_of(*d, row),
{
    let when = match rfc3339_text(d.generated_at) {
        Some(t) => t,
        None => {
            return Err("digest timestamp out of range".to_owned());
        },
    };
    let mut rows: Vec<(String, i64)> = Vec::new();
    let mut i: usize = 0;
    while i < d.by_source.len()
        invariant
            i <= d.by_source.len(),
            counts_as_rows(d.by_source@.take(i as int), rows@),
        decreases d.by_source.len() - i,
    {
        rows.push((d.by_source[i].0.clone(), d.by_source[i].1 as i64));
        proof {
            let t = d.by_source@.take(i + 1);
            assert forall|k: int| 0 <= k < rows@.len() implies (#[trigger] rows@[k]).0 == t[k].0
                && rows@[k].1 == t[k].1 as i64 by {
                if k < i {
                    assert(t[k] == d.by_source@.take(i as int)[k]);
                }
            }
        }
        i += 1;
    }
    assert(d.by_source@.take(d.by_source@.len() as int) == d.by_source@);
    Ok((d.total_items as i64, d.summary.clone(), when, rows))
}

/// `d` is the digest that the database row (`total_items`, `summary`,
/// `generated_at`, `sources`) holds: the total and the counts read back as
/// `usize`, the summary, and the moment read from the RFC 3339 text (see
/// `rfc3339_moment`).
pub open spec fn is_digest_of_row(
    total_items: i64,
    summary: Seq<char>,
    generated_at: Seq<char>,
    sources: Seq<(String, i64)>,
    d: Digest,
) -> bool {
    &&& d.total_items == total_items as usize
    &&& d.summary@ == summary
    &&& rfc3339_moment(generated_at) == Some((d.generated_at.secs, d.generated_at.nanos))
    &&& d.by_source@.len() == sources.len()
    &&& forall|i: int|
        0 <= i < sources.len() ==> (#[trigger] d.by_source@[i]).0 == sources[i].0
            && d.by_source@[i].1 == sources[i].1 as usize
}

/// The digest that a database row holds (see `is_digest_of_row`). Text that
/// chrono cannot read as a moment is refused with a message.
pub fn digest_from_row(total_items: i64, summary: String, generated_at: &str, sources: Vec<(String, i64)>) -> (r: Result<Digest, String>)
    ensures
        rfc3339_moment(generated_at@) is None <==> r is Err,
        r matches Ok(d) ==> is_digest_of_row(total_items, summary@, generated_at@, sources@, d),
{
    let when = match parse_rfc3339(generated_at) {
        Some(t) => t,
        None => {
            return Err("failed to parse digest timestamp".to_owned());
        },
    };
    let mut by_source: Vec<(String, usize)> = Vec::new();
    let mut i: usize = 0;
    while i < sources.len()
        invariant
            i <= sources.len(),
            by_source@.len() == i,
            forall|k: int|
                0 <= k < i ==> (#[trigger] by_source@[k]).0 == sources@[k].0 && by_source@[k].1
                    == sources@[k].1 as usize,
        decreases sources.len() - i,
    {
        by_source.push((sources[i].0.clone(), sources[i].1 as usize));
        i += 1;
    }
    Ok(Digest { total_items: total_items as usize, by_source, summary, generated_at: when })
}

/// Law: a digest kept as a database row and read back from that row is the
/// same digest, where its total and counts fit an `i64` and its moment is an
/// ordinary one (see `ordinary_time`).
pub proof fn stored_digest_reads_back(
    d: Digest,
    row: (i64, String, String, Vec<(String, i64)>),
    back: Digest,
)
    requires
        d.total_items <= i64::MAX,
        forall|i: int| 0 <= i < d.by_source@.len() ==> (#[trigger] d.by_source@[i]).1 <= i64::MAX,
        ordinary_time(d.generated_at.secs, d.generated_at.nanos),
        is_row_of(d, row),
        is_digest_of_row(row.0, row.1@, row.2@, row.3@, back),
    ensures
        back@ == d@,
{
    assert forall|i: int| 0 <= i < d.by_source@.len() implies #[trigger] back.by_source@[i]
        == d.by_source@[i] by {
        assert(row.3@[i].0 == d.by_source@[i].0);
        assert(row.3@[i].1 == d.by_source@[i].1 as i64);
    }
    assert(back.by_source@ =~= d.by_source@);
    assert(back.generated_at == d.generated_at);
}

} // verus!
