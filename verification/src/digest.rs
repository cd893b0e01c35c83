//! Making the digest: threads are collapsed, noise is set aside, the rest is
//! summarised, and the items are counted by source.
use vstd::prelude::*;
use crate::clock::now_utc;
use crate::agent::Agent;
use crate::dedup::{collapse_threads, dedup_threads};
use crate::noise::{filter_relevant, relevant};
use crate::storage::{
    count_with_source, is_source_tally, lemma_exact_counts_add_up, source_listed, tally_by_source,
    tally_total, Storage,
};
use crate::text::{
    is_whitespace, is_ws, lemma_text_less_irreflexive, lemma_text_less_total,
    lemma_text_less_transitive, text_less, to_chars, byte_len, utf8_width_exec,
};
use crate::{Digest, DigestView, Item, UtcTime};

verus! {

/// Entry `a` ranks before entry `b`: it has the larger count, or the same
/// count and the smaller source.
pub open spec fn ranks_before(a: (String, usize), b: (String, usize)) -> bool {
    a.1 > b.1 || (a.1 == b.1 && text_less(a.0@, b.0@))
}

/// `t` holds one entry per source of `items`, with the number of items from
/// that source, the largest count first (equal counts in order of source).
pub open spec fn is_count_ranking(items: Seq<Item>, t: Seq<(String, usize)>) -> bool {
    &&& forall|j: int, k: int| 0 <= j < k < t.len() ==> ranks_before(#[trigger] t[j], #[trigger] t[k])
    &&& forall|j: int|
        0 <= j < t.len() ==> #[trigger] t[j].1 == count_with_source(items, t[j].0@) && t[j].1 > 0
    &&& forall|i: int| 0 <= i < items.len() ==> source_listed(t, (#[trigger] items[i]).source@)
}

proof fn lemma_ranks_trans(a: (String, usize), b: (String, usize), c: (String, usize))
    requires
        ranks_before(a, b),
        ranks_before(b, c),
    ensures
        ranks_before(a, c),
{
    if a.1 == b.1 && b.1 == c.1 {
        lemma_text_less_transitive(a.0@, b.0@, c.0@);
    }
}

proof fn lemma_ranks_total(a: (String, usize), b: (String, usize))
    requires
        a.0@ != b.0@,
    ensures
        ranks_before(a, b) || ranks_before(b, a),
        !(ranks_before(a, b) && ranks_before(b, a)),
{
    lemma_text_less_total(a.0@, b.0@);
}

/// Every entry of `a` is among the first `n` entries of `b`.
pub open spec fn entries_within(a: Seq<(String, usize)>, b: Seq<(String, usize)>, n: int) -> bool {
    forall|j: int| 0 <= j < a.len() ==> exists|k: int| 0 <= k < n && #[trigger] a[j] == #[trigger] b[k]
}

/// The entries of `a` are in ranking order.
pub open spec fn ranked(a: Seq<(String, usize)>) -> bool {
    forall|j: int, k: int| 0 <= j < k < a.len() ==> ranks_before(#[trigger] a[j], #[trigger] a[k])
}

proof fn lemma_insert_ranked(s: Seq<(String, usize)>, j: int, x: (String, usize))
    requires
        ranked(s),
        0 <= j <= s.len(),
        forall|m: int| 0 <= m < s.len() ==> (#[trigger] s[m]).0@ != x.0@,
        forall|m: int| 0 <= m < j ==> !ranks_before(x, #[trigger] s[m]),
        j < s.len() ==> ranks_before(x, s[j]),
    ensures
        ranked(s.insert(j, x)),
{
    let r = s.insert(j, x);
    assert forall|a: int, b: int| 0 <= a < b < r.len() implies ranks_before(#[trigger] r[a], #[trigger] r[b]) by {
        if b == j {
            assert(r[a] == s[a]);
            lemma_ranks_total(x, s[a]);
        } else if a == j {
            assert(r[b] == s[b - 1]);
            if b - 1 > j {
                lemma_ranks_trans(x, s[j], s[b - 1]);
            }
        } else if a < j && b > j {
            assert(r[a] == s[a] && r[b] == s[b - 1]);
        } else if a > j {
            assert(r[a] == s[a - 1] && r[b] == s[b - 1]);
        } else {
            assert(r[a] == s[a] && r[b] == s[b]);
        }
    }
}

proof fn lemma_insert_entries(s: Seq<(String, usize)>, j: int, x: (String, usize), t: Seq<(String, usize)>, i: int)
    requires
        0 <= j <= s.len(),
        0 <= i < t.len(),
        x == t[i],
        entries_within(s, t, i),
        entries_within(t.take(i), s, s.len() as int),
    ensures
        entries_within(s.insert(j, x), t, i + 1),
        entries_within(t.take(i + 1), s.insert(j, x), s.len() + 1 as int),
{
    let r = s.insert(j, x);
    assert forall|m: int| 0 <= m < r.len() implies exists|k: int| 0 <= k < i + 1 && #[trigger] r[m] == #[trigger] t[k] by {
        if m < j {
            assert(r[m] == s[m]);
        } else if m == j {
            assert(r[m] == t[i]);
        } else {
            assert(r[m] == s[m - 1]);
        }
    }
    let u = t.take(i + 1);
    assert forall|k: int| 0 <= k < u.len() implies exists|m: int| 0 <= m < s.len() + 1 && #[trigger] u[k] == #[trigger] r[m] by {
        if k == i {
            assert(r[j] == x);
        } else {
            assert(u[k] == t.take(i)[k]);
            let m = choose|m: int| 0 <= m < s.len() && #[trigger] t.take(i)[k] == #[trigger] s[m];
            if m < j {
                assert(r[m] == s[m]);
            } else {
                assert(r[m + 1] == s[m]);
            }
        }
    }
}

/// The entries of a tally by source (see `is_source_tally`) ranked by count
/// (see `is_count_ranking`).
pub fn rank_by_count(t: Vec<(String, usize)>) -> (r: Vec<(String, usize)>)
    requires
        forall|j: int, k: int| 0 <= j < k < t@.len() ==> text_less(#[trigger] t@[j].0@, #[trigger] t@[k].0@),
    ensures
        ranked(r@),
        entries_within(r@, t@, t@.len() as int),
        entries_within(t@, r@, r@.len() as int),
{
    let mut r: Vec<(String, usize)> = Vec::new();
    let mut i: usize = 0;
    while i < t.len()
        invariant
            i <= t.len(),
            forall|j: int, k: int| 0 <= j < k < t@.len() ==> text_less(#[trigger] t@[j].0@, #[trigger] t@[k].0@),
            ranked(r@),
            r@.len() == i,
            entries_within(r@, t@, i as int),
            entries_within(t@.take(i as int), r@, r@.len() as int),
        decreases t.len() - i,
    {
        let x = (t[i].0.clone(), t[i].1);
        assert(x == t@[i as int]);
        let mut j: usize = 0;
        while j < r.len() && !(x.1 > r[j].1 || (x.1 == r[j].1 && crate::text::text_less_exec(x.0.as_str(), r[j].0.as_str())))
            invariant
                j <= r.len(),
                forall|m: int| 0 <= m < j ==> !ranks_before(x, #[trigger] r@[m]),
            decreases r.len() - j,
        {
            j += 1;
        }
        let ghost old_r = r@;
        proof {
            assert forall|m: int| 0 <= m < old_r.len() implies (#[trigger] old_r[m]).0@ != x.0@ by {
                let k = choose|k: int| 0 <= k < i && #[trigger] old_r[m] == #[trigger] t@[k];
                assert(text_less(t@[k].0@, t@[i as int].0@));
                lemma_text_less_irreflexive(x.0@);
            }
            lemma_insert_ranked(old_r, j as int, x);
            lemma_insert_entries(old_r, j as int, x, t@, i as int);
        }
        r.insert(j, x);
        i += 1;
    }
    assert(t@.take(t@.len() as int) == t@);
    r
}

/// The summary that needs no model: a note when there is nothing at all, a
/// note when everything is noise, and nothing when the model is needed.
pub open spec fn canned_summary(collapsed: Seq<Item>) -> Option<Seq<char>> {
    if collapsed.len() == 0 {
        Some("No items to summarize."@)
    } else if relevant(collapsed).len() == 0 {
        Some("Nothing needs attention today."@)
    } else {
        None
    }
}

proof fn lemma_presence_carries_over(items: Seq<Item>, t: Seq<(String, usize)>, r: Seq<(String, usize)>)
    requires
        is_source_tally(items, t),
        entries_within(t, r, r.len() as int),
    ensures
        forall|i: int| 0 <= i < items.len() ==> source_listed(r, (#[trigger] items[i]).source@),
{
    assert forall|i: int| 0 <= i < items.len() implies source_listed(r, (#[trigger] items[i]).source@) by {
        assert(source_listed(t, items[i].source@));
        let k = choose|k: int| 0 <= k < t.len() && (#[trigger] t[k]).0@ == items[i].source@;
        let j = choose|j: int| 0 <= j < r.len() && t[k] == #[trigger] r[j];
        assert(r[j].0@ == items[i].source@);
    }
}

/// `d` is a digest of the items `collapsed` (threads already collapsed): it
/// counts them, ranks their sources by count (see `is_count_ranking`), and,
/// where no model is needed, carries the fixed note (see `canned_summary`).
pub open spec fn is_digest_of(collapsed: Seq<Item>, d: DigestView) -> bool {
    &&& d.total_items == collapsed.len()
    &&& is_count_ranking(collapsed, d.by_source)
    &&& canned_summary(collapsed) matches Some(s) ==> d.summary == s
}

/// The digest of the items `collapsed` (threads already collapsed), with the
/// brief `summary`, made at `generated_at`.
pub fn assemble_digest(collapsed: &Vec<Item>, summary: String, generated_at: UtcTime) -> (d: Digest)
    ensures
        d.total_items == collapsed@.len(),
        is_count_ranking(collapsed@, d.by_source@),
        d.summary == summary,
        d.generated_at == generated_at,
{
    let sl = collapsed.as_slice();
    let tally = tally_by_source(sl);
    let ghost t = tally@;
    assert(sl@ == collapsed@);
    assert(is_source_tally(collapsed@, t));
    let by_source = rank_by_count(tally);
    proof {
        let r = by_source@;
        assert forall|j: int| 0 <= j < r.len() implies #[trigger] r[j].1 == count_with_source(collapsed@, r[j].0@) && r[j].1 > 0 by {
            let k = choose|k: int| 0 <= k < t.len() && r[j] == #[trigger] t[k];
            assert(t[k].1 == count_with_source(collapsed@, t[k].0@));
        }
        lemma_presence_carries_over(collapsed@, t, r);
        assert(is_count_ranking(collapsed@, r));
    }
    Digest { total_items: collapsed.len(), by_source, summary, generated_at }
}

/// Makes the digest of `items`: threads are collapsed (see
/// `dedup_threads`); when nothing is left, or only noise, the summary is a
/// fixed note (see `canned_summary`) and the agent is not asked; otherwise the
/// agent is given the items that are not noise, and an error of the agent is
/// passed on. The digest counts the collapsed items, by source (see
/// `assemble_digest`), and carries the current time.
pub fn build_digest<A: Agent>(items: Vec<Item>, agent: &A) -> (r: Result<Digest, String>)
    ensures
        canned_summary(collapse_threads(items@)) is Some ==> r is Ok,
        r matches Ok(d) ==> is_digest_of(collapse_threads(items@), d@),
        canned_summary(collapse_threads(items@)) is None ==> match r {
            Ok(d) => agent.answers(relevant(collapse_threads(items@)), Ok(d.summary@)),
            Err(e) => agent.answers(relevant(collapse_threads(items@)), Err(e@)),
        },
{
    let items = dedup_threads(items);
    let relevant_items = filter_relevant(items.as_slice());
    let summary = if items.len() == 0 {
        "No items to summarize.".to_owned()
    } else if relevant_items.len() == 0 {
        "Nothing needs attention today.".to_owned()
    } else {
        agent.summarize_items(relevant_items.as_slice())?
    };
    Ok(assemble_digest(&items, summary, now_utc()))
}

/// Makes the digest of the stored items (see `build_digest`) and stores it.
/// Errors of the store or the agent are passed on; nothing is stored then.
/// With a store that never fails it succeeds wherever the agent is not asked
/// (see `canned_summary`).
pub fn digest_items<S: Storage, A: Agent>(storage: &mut S, agent: &A) -> (r: Result<(), String>)
    ensures
        old(storage).reliable() && old(storage).modelled() && canned_summary(
            collapse_threads(old(storage).held_items()),
        ) is Some ==> r is Ok,
        old(storage).modelled() && r is Ok ==> final(storage).held_items() == old(storage).held_items(),
        old(storage).modelled() && r is Ok ==> (final(storage).held_digest() matches Some(d)
            && is_digest_of(collapse_threads(old(storage).held_items()), d) && (canned_summary(
            collapse_threads(old(storage).held_items()),
        ) is None ==> agent.answers(
            relevant(collapse_threads(old(storage).held_items())),
            Ok(d.summary),
        ))),
        old(storage).modelled() && r is Err ==> final(storage).held_digest() == old(
            storage,
        ).held_digest() && final(storage).held_items() == old(storage).held_items(),
{
    let raw_items = storage.get_items()?;
    let items = dedup_threads(raw_items);
    proof {
        crate::dedup::collapse_threads_is_idempotent(old(storage).held_items());
    }
    let digest = build_digest(items, agent)?;
    storage.store_digest(&digest)?;
    Ok(())
}

} // verus!

verus! {

/// `n`, or `usize::MAX` where it is larger.
pub open spec fn capped(n: nat) -> nat {
    if n <= usize::MAX {
        n
    } else {
        usize::MAX as nat
    }
}

/// How many words `s` holds, as std's `split_whitespace` counts them: the
/// characters that are not whitespace and begin `s` or follow whitespace.
pub open spec fn word_count(s: Seq<char>) -> nat
    decreases s.len(),
{
    if s.len() == 0 {
        0
    } else {
        word_count(s.drop_last()) + if !is_ws(s.last()) && (s.len() == 1 || is_ws(s[s.len() - 2])) {
            1nat
        } else {
            0nat
        }
    }
}

/// The number of words of `s` (see `word_count`).
pub fn count_words(s: &str) -> (n: usize)
    ensures
        n == word_count(s@),
{
    let v = to_chars(s);
    let mut n: usize = 0;
    let mut i: usize = 0;
    while i < v.len()
        invariant
            v@ == s@,
            i <= v.len(),
            n <= i,
            n == word_count(v@.take(i as int)),
        decreases v.len() - i,
    {
        proof {
            let p = v@.take(i + 1);
            assert(p.drop_last() == v@.take(i as int));
            assert(p.last() == v@[i as int]);
            if i >= 1 {
                assert(p[p.len() - 2] == v@[i - 1]);
            }
        }
        if !is_whitespace(v[i]) && (i == 0 || is_whitespace(v[i - 1])) {
            n += 1;
        }
        i += 1;
    }
    assert(v@.take(v@.len() as int) == v@);
    n
}

/// The number of bytes of `s` in UTF-8, or `usize::MAX` where it is larger.
pub fn count_bytes(s: &str) -> (n: usize)
    ensures
        n == capped(byte_len(s@)),
{
    let v = to_chars(s);
    let mut n: usize = 0;
    let mut i: usize = 0;
    while i < v.len()
        invariant
            v@ == s@,
            i <= v.len(),
            n == capped(byte_len(v@.take(i as int))),
        decreases v.len() - i,
    {
        proof {
            let p = v@.take(i + 1);
            assert(p.drop_last() == v@.take(i as int));
            assert(p.last() == v@[i as int]);
        }
        let w = utf8_width_exec(v[i]) as usize;
        if n > usize::MAX - w {
            n = usize::MAX;
        } else {
            n = n + w;
        }
        i += 1;
    }
    assert(v@.take(v@.len() as int) == v@);
    n
}

/// The number of bytes of the bodies of `items`, all told.
pub open spec fn bytes_of(items: Seq<Item>) -> nat
    decreases items.len(),
{
    if items.len() == 0 {
        0
    } else {
        bytes_of(items.drop_last()) + byte_len(items.last().body@)
    }
}

/// The number of words of the bodies of `items`, all told.
pub open spec fn words_of(items: Seq<Item>) -> nat
    decreases items.len(),
{
    if items.len() == 0 {
        0
    } else {
        words_of(items.drop_last()) + word_count(items.last().body@)
    }
}

/// The size of what is handed to the model: how many items, and how many
/// bytes and words their bodies hold (each total `usize::MAX` where larger).
pub struct DigestStats {
    pub items: usize,
    pub bytes: usize,
    pub words: usize,
}

fn add_capped(a: usize, b: usize) -> (r: usize)
    ensures
        r == if a + b <= usize::MAX { (a + b) as nat } else { usize::MAX as nat },
{
    if a > usize::MAX - b {
        usize::MAX
    } else {
        a + b
    }
}

/// The size of the items `items` (see `DigestStats`).
pub fn digest_stats(items: &[Item]) -> (st: DigestStats)
    ensures
        st.items == items@.len(),
        st.bytes == capped(bytes_of(items@)),
        st.words == capped(words_of(items@)),
{
    let mut bytes: usize = 0;
    let mut words: usize = 0;
    let mut i: usize = 0;
    while i < items.len()
        invariant
            i <= items.len(),
            bytes == capped(bytes_of(items@.take(i as int))),
            words == capped(words_of(items@.take(i as int))),
        decreases items.len() - i,
    {
        proof {
            let p = items@.take(i + 1);
            assert(p.drop_last() == items@.take(i as int));
            assert(p.last() == items@[i as int]);
        }
        bytes = add_capped(bytes, count_bytes(items[i].body.as_str()));
        words = add_capped(words, count_words(items[i].body.as_str()));
        i += 1;
    }
    assert(items@.take(items@.len() as int) == items@);
    DigestStats { items: items.len(), bytes, words }
}

/// The size of what a digest of `items` hands to the model: `None` where the
/// model is not asked (see `canned_summary`), else the size of the items
/// that are not noise, threads collapsed.
pub fn digest_preview(items: &[Item]) -> (r: Option<DigestStats>)
    ensures
        r is None <==> canned_summary(collapse_threads(items@)) is Some,
        r matches Some(st) ==> {
            let rel = relevant(collapse_threads(items@));
            &&& st.items == rel.len()
            &&& st.bytes == capped(bytes_of(rel))
            &&& st.words == capped(words_of(rel))
        },
{
    let all = crate::storage::copy_items(items);
    let collapsed = dedup_threads(all);
    let rel = filter_relevant(collapsed.as_slice());
    if collapsed.len() == 0 || rel.len() == 0 {
        None
    } else {
        Some(digest_stats(rel.as_slice()))
    }
}

} // verus!

verus! {

/// Law: the per-source counts of a digest add up to its total number of
/// items.
pub proof fn digest_counts_add_up(collapsed: Seq<Item>, d: DigestView)
    requires
        is_digest_of(collapsed, d),
    ensures
        tally_total(d.by_source) == d.total_items,
{
    let t = d.by_source;
    assert forall|j: int, k: int| 0 <= j < k < t.len() implies (#[trigger] t[j]).0@ != (#[trigger] t[k]).0@ by {
        assert(ranks_before(t[j], t[k]));
        if t[j].0@ == t[k].0@ {
            lemma_text_less_irreflexive(t[j].0@);
        }
    }
    lemma_exact_counts_add_up(collapsed, t);
}

} // verus!
