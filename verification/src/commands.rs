//! What the commands show: the per-source counts, the stored items, the daily
//! brief and the outcome of a fetch, each as the text to print.
use vstd::prelude::*;
use crate::storage::{is_source_tally, tally_total, total_count, Storage};
use crate::cli::{display_name, shown_name};
use crate::clock::{long_date, long_date_of};
use crate::fetch::{FetchResult, MailboxStats};
use crate::email::{ascii_lower, ascii_lower_char};
use crate::text::{decimal, push_char, push_decimal, push_str, to_chars, trim, trim_string};
use crate::{Digest, DigestView, Item};
use vstd::string::StrSliceExecFns;

verus! {

/// What is shown when the store holds no items.
pub open spec fn no_items_text() -> Seq<char> {
    "No items stored. Run `br1ef fetch` first.\n"@
}

/// The sum of the counts of `t`, or `usize::MAX` when it is larger.
pub open spec fn capped_total(t: Seq<(String, usize)>) -> nat {
    if tally_total(t) <= usize::MAX {
        tally_total(t)
    } else {
        usize::MAX as nat
    }
}

/// One line per entry of `t`: the source, a dash and the count.
pub open spec fn count_lines(t: Seq<(String, usize)>) -> Seq<char>
    decreases t.len(),
{
    if t.len() == 0 {
        Seq::empty()
    } else {
        count_lines(t.drop_last()) + "  "@ + t.last().0@ + " \u{2014} "@ + decimal(t.last().1 as nat)
            + "\n"@
    }
}

/// The report of the per-source counts `t`: a heading, a line per source,
/// a rule and the total (see `capped_total`); or, with no counts, a hint to
/// fetch first.
pub open spec fn count_report(t: Seq<(String, usize)>) -> Seq<char> {
    if t.len() == 0 {
        no_items_text()
    } else {
        "\u{1F4E6} Items by source:\n"@ + count_lines(t) + "  \u{2500}\u{2500}\u{2500}\u{2500}\u{2500}\n"@
            + "  Total: "@ + decimal(capped_total(t)) + "\n"@
    }
}

/// The report of the per-source counts `counts` (see `count_report`).
pub fn count_items_text(counts: &[(String, usize)]) -> (r: String)
    ensures
        r@ == count_report(counts@),
{
    if counts.len() == 0 {
        return "No items stored. Run `br1ef fetch` first.\n".to_owned();
    }
    let mut s = "\u{1F4E6} Items by source:\n".to_owned();
    let ghost head = s@;
    let mut i: usize = 0;
    while i < counts.len()
        invariant
            i <= counts.len(),
            s@ == head + count_lines(counts@.take(i as int)),
        decreases counts.len() - i,
    {
        proof {
            let p = counts@.take(i + 1);
            assert(p.drop_last() == counts@.take(i as int));
            assert(p.last() == counts@[i as int]);
        }
        push_str(&mut s, "  ");
        push_str(&mut s, counts[i].0.as_str());
        push_str(&mut s, " \u{2014} ");
        push_decimal(&mut s, counts[i].1 as u64);
        push_str(&mut s, "\n");
        assert(s@ =~= head + count_lines(counts@.take(i + 1)));
        i += 1;
    }
    assert(counts@.take(counts@.len() as int) == counts@);
    push_str(&mut s, "  \u{2500}\u{2500}\u{2500}\u{2500}\u{2500}\n");
    push_str(&mut s, "  Total: ");
    let total = total_count(counts);
    push_decimal(&mut s, total as u64);
    push_str(&mut s, "\n");
    assert(s@ =~= count_report(counts@));
    s
}

/// The report of the items held by `storage`, counted by source (see
/// `count_report`). Errors of the store are passed on; with a store that
/// never fails (see `Storage::reliable`) it succeeds.
pub fn cmd_count_items<S: Storage>(storage: &S) -> (r: Result<String, String>)
    ensures
        storage.reliable() ==> r is Ok,
        storage.modelled() ==> (r matches Ok(s) ==> exists|t: Seq<(String, usize)>|
            is_source_tally(storage.held_items(), t) && s@ == count_report(t)),
{
    let counts = storage.get_item_counts_by_source()?;
    Ok(count_items_text(counts.as_slice()))
}

/// The title of an item as listed: its first 50 characters, followed by
/// "..." when it has more than 80.
pub open spec fn title_preview(title: Seq<char>) -> Seq<char> {
    (if title.len() <= 50 {
        title
    } else {
        title.take(50)
    }) + if title.len() > 80 {
        "..."@
    } else {
        Seq::empty()
    }
}

/// The lines listing `items`: for each, the sender and the mailbox, then the
/// title's preview, then a blank line.
pub open spec fn item_lines(items: Seq<Item>) -> Seq<char>
    decreases items.len(),
{
    if items.len() == 0 {
        Seq::empty()
    } else {
        let it = items.last();
        item_lines(items.drop_last()) + it.from@ + ": "@ + it.mailbox@ + "\n"@ + "  "@
            + title_preview(it.title@) + "\n"@ + "\n"@
    }
}

/// The listing of `items`: a heading, the entries and a rule; or, with no
/// items, a hint to fetch first.
pub open spec fn list_report(items: Seq<Item>) -> Seq<char> {
    if items.len() == 0 {
        no_items_text()
    } else {
        "\u{1F4E6} Items:\n"@ + item_lines(items) + "  \u{2500}\u{2500}\u{2500}\u{2500}\u{2500}\n"@
    }
}

fn push_preview(s: &mut String, title: &str)
    ensures
        final(s)@ == old(s)@ + title_preview(title@),
{
    let v = crate::text::to_chars(title);
    let n = v.len();
    let cut = if n <= 50 { n } else { 50 };
    let head = crate::text::from_char_range(&v, 0, cut);
    push_str(s, head.as_str());
    if n > 80 {
        push_str(s, "...");
    }
    proof {
        if n <= 50 {
            assert(v@.subrange(0, cut as int) == title@);
        } else {
            assert(v@.subrange(0, cut as int) == title@.take(50));
        }
    }
    assert(s@ =~= old(s)@ + title_preview(title@));
}

/// The listing of `items` (see `list_report`).
pub fn list_items_text(items: &[Item]) -> (r: String)
    ensures
        r@ == list_report(items@),
{
    if items.len() == 0 {
        return "No items stored. Run `br1ef fetch` first.\n".to_owned();
    }
    let mut s = "\u{1F4E6} Items:\n".to_owned();
    let ghost head = s@;
    let mut i: usize = 0;
    while i < items.len()
        invariant
            i <= items.len(),
            s@ == head + item_lines(items@.take(i as int)),
        decreases items.len() - i,
    {
        proof {
            let p = items@.take(i + 1);
            assert(p.drop_last() == items@.take(i as int));
            assert(p.last() == items@[i as int]);
        }
        push_str(&mut s, items[i].from.as_str());
        push_str(&mut s, ": ");
        push_str(&mut s, items[i].mailbox.as_str());
        push_str(&mut s, "\n");
        push_str(&mut s, "  ");
        push_preview(&mut s, items[i].title.as_str());
        push_str(&mut s, "\n");
        push_str(&mut s, "\n");
        assert(s@ =~= head + item_lines(items@.take(i + 1)));
        i += 1;
    }
    assert(items@.take(items@.len() as int) == items@);
    push_str(&mut s, "  \u{2500}\u{2500}\u{2500}\u{2500}\u{2500}\n");
    assert(s@ =~= list_report(items@));
    s
}

/// The listing of the items held by `storage` (see `list_report`). Errors
/// of the store are passed on; with a store that never fails (see
/// `Storage::reliable`) it succeeds.
pub fn cmd_list_items<S: Storage>(storage: &S) -> (r: Result<String, String>)
    ensures
        storage.reliable() ==> r is Ok,
        storage.modelled() ==> (r matches Ok(s) ==> s@ == list_report(storage.held_items())),
{
    let items = storage.get_items()?;
    Ok(list_items_text(items.as_slice()))
}

} // verus!

verus! {

/// A rule of forty copies of `c`.
pub open spec fn rule(c: char) -> Seq<char> {
    Seq::new(40, |_i: int| c)
}

fn push_rule(s: &mut String, c: char)
    ensures
        final(s)@ == old(s)@ + rule(c),
{
    let mut i: usize = 0;
    while i < 40
        invariant
            i <= 40,
            s@ == old(s)@ + Seq::new(i as nat, |_k: int| c),
        decreases 40 - i,
    {
        push_char(s, c);
        assert(s@ =~= old(s)@ + Seq::new((i + 1) as nat, |_k: int| c));
        i += 1;
    }
}

/// `s` with each "\r\n" made a single "\n".
pub open spec fn lf_only(s: Seq<char>) -> Seq<char>
    decreases s.len(),
{
    if s.len() == 0 {
        Seq::empty()
    } else if s.len() >= 2 && s.last() == '\n' && s[s.len() - 2] == '\r' {
        lf_only(s.take(s.len() - 2)).push('\n')
    } else {
        lf_only(s.drop_last()).push(s.last())
    }
}

/// What printing each line of `s` (as std's `str::lines` splits it) on a
/// line of its own writes: `s` with "\r\n" made "\n", ending in a newline.
pub open spec fn printed_lines(s: Seq<char>) -> Seq<char> {
    if lf_only(s).len() == 0 || lf_only(s).last() == '\n' {
        lf_only(s)
    } else {
        lf_only(s).push('\n')
    }
}

fn push_lines(s: &mut String, text: &str)
    ensures
        final(s)@ == old(s)@ + printed_lines(text@),
{
    let v = to_chars(text);
    let n = v.len();
    let mut out = String::new();
    let mut i: usize = 0;
    while i < n
        invariant
            n == v@.len(),
            v@ == text@,
            i <= n,
            out@ == lf_only(v@.take(i as int)),
            0 < i < n ==> !(v@[i - 1] == '\r' && v@[i as int] == '\n'),
        decreases n - i,
    {
        if v[i] == '\r' && i + 1 < n && v[i + 1] == '\n' {
            let ghost t = v@.take(i + 2);
            assert(t.take(t.len() - 2) == v@.take(i as int));
            assert(t.last() == '\n' && t[t.len() - 2] == '\r');
            push_char(&mut out, '\n');
            i += 2;
        } else {
            let ghost t = v@.take(i + 1);
            assert(t.drop_last() == v@.take(i as int));
            assert(t.last() == v@[i as int]);
            if i >= 1 {
                assert(t[t.len() - 2] == v@[i - 1]);
            }
            push_char(&mut out, v[i]);
            i += 1;
        }
    }
    assert(v@.take(n as int) == v@);
    let ol = out.as_str().unicode_len();
    if ol == 0 || out.as_str().get_char(ol - 1) == '\n' {
        push_str(s, out.as_str());
    } else {
        push_str(s, out.as_str());
        proof {
            reveal_strlit("\n");
        }
        push_str(s, "\n");
    }
    assert(s@ =~= old(s)@ + printed_lines(text@));
}

/// The date a digest made at `ts` is headed with; empty where chrono cannot
/// write it.
pub open spec fn brief_date(ts: i64) -> Seq<char> {
    match long_date_of(ts) {
        Some(d) => d,
        None => Seq::empty(),
    }
}

/// One line per entry of `t`: the source, a colon and the count.
pub open spec fn source_lines(t: Seq<(String, usize)>) -> Seq<char>
    decreases t.len(),
{
    if t.len() == 0 {
        Seq::empty()
    } else {
        source_lines(t.drop_last()) + "  "@ + t.last().0@ + ": "@ + decimal(t.last().1 as nat) + "\n"@
    }
}

/// The daily brief for the digest `d`: its date, the number of items, the
/// count per source and, where there is one, the summary under a rule; with
/// no digest, a hint to fetch and digest first.
pub open spec fn daily_report(d: Option<DigestView>) -> Seq<char> {
    match d {
        None => "No digest. Run `br1ef fetch` then `br1ef digest` first.\n"@,
        Some(d) => "\u{2615} Your Brief \u{2014} "@ + brief_date(d.generated_at.secs) + "\n"@ + rule('\u{2550}')
            + "\n"@ + "\u{1F4E6} Total items: "@ + decimal(d.total_items as nat) + "\n"@ + "\n"@
            + "\u{1F4EC} By source:\n"@ + source_lines(d.by_source) + "\n"@ + if d.summary.len() > 0 {
            rule('\u{2500}') + "\n"@ + printed_lines(d.summary)
        } else {
            Seq::empty()
        },
    }
}

/// The view of an optional digest.
pub open spec fn digest_view(d: Option<Digest>) -> Option<DigestView> {
    match d {
        Some(d) => Some(d@),
        None => None,
    }
}

/// The daily brief for the digest `d` (see `daily_report`).
pub fn daily_text(d: &Option<Digest>) -> (r: String)
    ensures
        r@ == daily_report(digest_view(*d)),
{
    match d {
        None => "No digest. Run `br1ef fetch` then `br1ef digest` first.\n".to_owned(),
        Some(d) => {
            let mut s = "\u{2615} Your Brief \u{2014} ".to_owned();
            match long_date(d.generated_at.secs) {
                Some(t) => push_str(&mut s, t.as_str()),
                None => {},
            }
            push_str(&mut s, "\n");
            push_rule(&mut s, '\u{2550}');
            push_str(&mut s, "\n");
            push_str(&mut s, "\u{1F4E6} Total items: ");
            push_decimal(&mut s, d.total_items as u64);
            push_str(&mut s, "\n");
            push_str(&mut s, "\n");
            push_str(&mut s, "\u{1F4EC} By source:\n");
            let ghost head = s@;
            let mut i: usize = 0;
            while i < d.by_source.len()
                invariant
                    i <= d.by_source.len(),
                    s@ == head + source_lines(d.by_source@.take(i as int)),
                decreases d.by_source.len() - i,
            {
                proof {
                    let p = d.by_source@.take(i + 1);
                    assert(p.drop_last() == d.by_source@.take(i as int));
                    assert(p.last() == d.by_source@[i as int]);
                }
                push_str(&mut s, "  ");
                push_str(&mut s, d.by_source[i].0.as_str());
                push_str(&mut s, ": ");
                push_decimal(&mut s, d.by_source[i].1 as u64);
                push_str(&mut s, "\n");
                assert(s@ =~= head + source_lines(d.by_source@.take(i + 1)));
                i += 1;
            }
            assert(d.by_source@.take(d.by_source@.len() as int) == d.by_source@);
            push_str(&mut s, "\n");
            let ghost mid = s@;
            if !d.summary.as_str().is_empty() {
                push_rule(&mut s, '\u{2500}');
                push_str(&mut s, "\n");
                push_lines(&mut s, d.summary.as_str());
            }
            assert(s@ =~= daily_report(digest_view(Some(*d))));
            s
        },
    }
}

/// The daily brief for the digest held by `storage` (see `daily_report`).
/// Errors of the store are passed on; with a store that never fails (see
/// `Storage::reliable`) it succeeds.
pub fn cmd_daily<S: Storage>(storage: &S) -> (r: Result<String, String>)
    ensures
        storage.reliable() ==> r is Ok,
        storage.modelled() ==> (r matches Ok(s) ==> s@ == daily_report(storage.held_digest())),
{
    let d = storage.get_digest()?;
    Ok(daily_text(&d))
}

} // verus!

verus! {

/// One line per mailbox of `stats`: its shown name, how many new items it
/// gave and how many it held.
pub open spec fn mailbox_lines(stats: Seq<MailboxStats>) -> Seq<char>
    decreases stats.len(),
{
    if stats.len() == 0 {
        Seq::empty()
    } else {
        let m = stats.last();
        mailbox_lines(stats.drop_last()) + "  \u{2705} "@ + shown_name(m.name@) + " \u{2014} "@
            + decimal(m.new as nat) + " new ("@ + decimal(m.total as nat) + " total)\n"@
    }
}

/// The report of the fetch `r`: a line per mailbox, then the number of items
/// fetched.
pub open spec fn fetch_report(r: FetchResult) -> Seq<char> {
    mailbox_lines(r.per_mailbox@) + "\u{2728} Fetched "@ + decimal(r.items@.len()) + " item(s).\n"@
}

/// The report of the fetch `r` (see `fetch_report`).
pub fn fetch_text(r: &FetchResult) -> (s: String)
    ensures
        s@ == fetch_report(*r),
{
    let mut s = String::new();
    let mut i: usize = 0;
    while i < r.per_mailbox.len()
        invariant
            i <= r.per_mailbox.len(),
            s@ == mailbox_lines(r.per_mailbox@.take(i as int)),
        decreases r.per_mailbox.len() - i,
    {
        proof {
            let p = r.per_mailbox@.take(i + 1);
            assert(p.drop_last() == r.per_mailbox@.take(i as int));
            assert(p.last() == r.per_mailbox@[i as int]);
        }
        let m = &r.per_mailbox[i];
        push_str(&mut s, "  \u{2705} ");
        push_str(&mut s, display_name(m.name.as_str()));
        push_str(&mut s, " \u{2014} ");
        push_decimal(&mut s, m.new as u64);
        push_str(&mut s, " new (");
        push_decimal(&mut s, m.total as u64);
        push_str(&mut s, " total)\n");
        assert(s@ =~= mailbox_lines(r.per_mailbox@.take(i + 1)));
        i += 1;
    }
    assert(r.per_mailbox@.take(r.per_mailbox@.len() as int) == r.per_mailbox@);
    push_str(&mut s, "\u{2728} Fetched ");
    push_decimal(&mut s, r.items.len() as u64);
    push_str(&mut s, " item(s).\n");
    assert(s@ =~= fetch_report(*r));
    s
}

} // verus!

verus! {

/// The answer to "Delete ... items? [y/N]" is yes: it is "y" or "Y", once
/// trimmed.
pub open spec fn answers_yes(input: Seq<char>) -> bool {
    trim(input).map_values(|c: char| ascii_lower(c)) == "y"@
}

/// Whether the answer `input` confirms the deletion (see `answers_yes`).
pub fn confirms_deletion(input: &str) -> (r: bool)
    ensures
        r == answers_yes(input@),
{
    let t = trim_string(input);
    let v = to_chars(t.as_str());
    proof {
        reveal_strlit("y");
    }
    let ghost low = trim(input@).map_values(|c: char| ascii_lower(c));
    if v.len() != 1 {
        assert(low.len() != "y"@.len());
        return false;
    }
    let r = ascii_lower_char(v[0]) == 'y';
    proof {
        if r {
            assert(low =~= "y"@);
        } else {
            assert(low[0] != 'y');
        }
    }
    r
}

/// The question asked before deleting `total` items.
pub open spec fn delete_question(total: nat) -> Seq<char> {
    "Delete "@ + decimal(total) + " items? [y/N]"@
}

/// The question asked before deleting `total` items (see `delete_question`).
pub fn delete_question_text(total: usize) -> (r: String)
    ensures
        r@ == delete_question(total as nat),
{
    let mut s = "Delete ".to_owned();
    push_decimal(&mut s, total as u64);
    push_str(&mut s, " items? [y/N]");
    s
}

} // verus!
