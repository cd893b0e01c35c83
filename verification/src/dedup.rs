//! Collapsing email threads: a reply's subject is reduced to the subject it
//! replies to, and the items of one thread from one sender are kept once.
use vstd::prelude::*;
use crate::email::{lowercase, to_lowercase};
use crate::text::{
    from_char_range, is_ws, skip_ws, skip_ws_back, starts_with, starts_with_exec, to_chars, trim,
    trim_end, trim_start,
};
use crate::Item;

verus! {

/// The number of reply and forward markers that are recognised.
pub open spec fn reply_prefix_count() -> int {
    9
}

/// The reply and forward markers, in the order in which they are tried:
/// English, German, Scandinavian and Dutch forms.
pub open spec fn reply_prefix(i: int) -> Seq<char> {
    if i == 0 {
        "re:"@
    } else if i == 1 {
        "fwd:"@
    } else if i == 2 {
        "fw:"@
    } else if i == 3 {
        "aw:"@
    } else if i == 4 {
        "vs:"@
    } else if i == 5 {
        "sv:"@
    } else if i == 6 {
        "vid:"@
    } else if i == 7 {
        "antw:"@
    } else {
        "wg:"@
    }
}

fn reply_prefix_str(i: usize) -> (r: &'static str)
    requires
        i < 9,
    ensures
        r@ == reply_prefix(i as int),
{
    match i {
        0 => "re:",
        1 => "fwd:",
        2 => "fw:",
        3 => "aw:",
        4 => "vs:",
        5 => "sv:",
        6 => "vid:",
        7 => "antw:",
        _ => "wg:",
    }
}

/// `t` in lower case (std's `to_lowercase`) begins with marker `p`; the
/// first `p.len()` characters of `t`, which stand for the marker, are
/// followed by a space or a `[`, and something other than whitespace comes
/// after that.
pub open spec fn strips_with(t: Seq<char>, p: Seq<char>) -> bool {
    &&& p.len() <= t.len()
    &&& starts_with(lowercase(t), p)
    &&& t.len() > p.len()
    &&& (t[p.len() as int] == ' ' || t[p.len() as int] == '[')
    &&& trim_start(t.skip(p.len() as int)).len() > 0
}

/// The subject left after removing the first marker, from marker `i` on, that
/// `t` can be stripped of, with the whitespace after it.
pub open spec fn strip_from(t: Seq<char>, i: int) -> Option<Seq<char>>
    decreases reply_prefix_count() - i,
{
    if i >= reply_prefix_count() || i < 0 {
        None
    } else if strips_with(t, reply_prefix(i)) {
        Some(trim_start(t.skip(reply_prefix(i).len() as int)))
    } else {
        strip_from(t, i + 1)
    }
}

/// One step of normalisation: the subject without its leading marker, if it
/// has one that can be stripped.
pub open spec fn strip_reply(t: Seq<char>) -> Option<Seq<char>> {
    strip_from(t, 0)
}

/// Trimming leading whitespace never lengthens a text.
pub proof fn lemma_trim_start_len(s: Seq<char>)
    ensures
        trim_start(s).len() <= s.len(),
    decreases s.len(),
{
    if s.len() > 0 && is_ws(s[0]) {
        lemma_trim_start_len(s.drop_first());
    }
}

/// Stripping a marker shortens the subject (so normalising ends).
pub proof fn lemma_strip_from_shorter(t: Seq<char>, i: int)
    ensures
        strip_from(t, i) matches Some(u) ==> u.len() < t.len(),
    decreases reply_prefix_count() - i,
{
    if 0 <= i < reply_prefix_count() {
        if strips_with(t, reply_prefix(i)) {
            let p = reply_prefix(i);
            lemma_trim_start_len(t.skip(p.len() as int));
            reveal_strlit("re:");
            reveal_strlit("fwd:");
            reveal_strlit("fw:");
            reveal_strlit("aw:");
            reveal_strlit("vs:");
            reveal_strlit("sv:");
            reveal_strlit("vid:");
            reveal_strlit("antw:");
            reveal_strlit("wg:");
        } else {
            lemma_strip_from_shorter(t, i + 1);
        }
    }
}

/// Strips markers off `t` for as long as one can be stripped.
pub open spec fn strip_all(t: Seq<char>) -> Seq<char>
    decreases t.len(),
{
    match strip_reply(t) {
        Some(u) => {
            proof {
                lemma_strip_from_shorter(t, 0);
            }
            strip_all(u)
        },
        None => t,
    }
}

/// The thread subject of a subject line: trimmed, with every leading reply or
/// forward marker ("Re:", "Fwd:", "AW:", ...) removed. A marker is removed
/// only where a space or `[` follows it and something is left after it.
pub open spec fn normalized(subject: Seq<char>) -> Seq<char> {
    strip_all(trim(subject))
}

/// Where the subject `v[start..end]` continues after one step of
/// normalisation, if it can be stripped of a marker.
fn strip_step(v: &Vec<char>, start: usize, end: usize) -> (r: Option<usize>)
    requires
        start <= end <= v.len(),
    ensures
        match r {
            Some(ns) => start < ns <= end && strip_reply(v@.subrange(start as int, end as int))
                == Some(v@.subrange(ns as int, end as int)),
            None => strip_reply(v@.subrange(start as int, end as int)) is None,
        },
{
    let ghost t = v@.subrange(start as int, end as int);
    let cur = from_char_range(v, start, end);
    let lower = to_lowercase(cur.as_str());
    let mut i: usize = 0;
    while i < 9
        invariant
            i <= 9,
            start <= end <= v.len(),
            t == v@.subrange(start as int, end as int),
            lower@ == lowercase(t),
            strip_reply(t) == strip_from(t, i as int),
        decreases 9 - i,
    {
        let ps = reply_prefix_str(i);
        let p = to_chars(ps);
        if p.len() <= end - start && starts_with_exec(lower.as_str(), ps) {
            let after = start + p.len();
            if after < end && (v[after] == ' ' || v[after] == '[') {
                let ns = skip_ws(v, after, end);
                proof {
                    assert(t.skip(p@.len() as int) == v@.subrange(after as int, end as int));
                    assert(t[p@.len() as int] == v@[after as int]);
                }
                if ns < end {
                    proof {
                        reveal_strlit("re:");
                        reveal_strlit("fwd:");
                        reveal_strlit("fw:");
                        reveal_strlit("aw:");
                        reveal_strlit("vs:");
                        reveal_strlit("sv:");
                        reveal_strlit("vid:");
                        reveal_strlit("antw:");
                        reveal_strlit("wg:");
                        assert(p@.len() > 0);
                        assert(strips_with(t, reply_prefix(i as int)));
                        assert(strip_from(t, i as int) == Some(
                            trim_start(t.skip(reply_prefix(i as int).len() as int)),
                        ));
                    }
                    return Some(ns);
                }
            } else {
                proof {
                    if after < end {
                        assert(t[p@.len() as int] == v@[after as int]);
                    }
                }
            }
        }
        i += 1;
    }
    None
}

/// Reduces a subject line to its thread subject (see `normalized`).
pub fn normalize_subject(subject: &str) -> (r: String)
    ensures
        r@ == normalized(subject@),
{
    let v = to_chars(subject);
    let mut start = skip_ws(&v, 0, v.len());
    let end = skip_ws_back(&v, start, v.len());
    proof {
        assert(v@.subrange(0, v@.len() as int) == v@);
    }
    loop
        invariant
            start <= end <= v.len(),
            strip_all(v@.subrange(start as int, end as int)) == normalized(subject@),
        ensures
            start <= end <= v.len(),
            v@.subrange(start as int, end as int) == normalized(subject@),
        decreases end - start,
    {
        match strip_step(&v, start, end) {
            Some(ns) => {
                start = ns;
            },
            None => {
                proof {
                    let cur = v@.subrange(start as int, end as int);
                    assert(strip_all(cur) == cur);
                }
                break ;
            },
        }
    }
    from_char_range(&v, start, end)
}

} // verus!

verus! {

/// Identifies a thread: the sender exactly as written, and the subject's
/// thread subject.
pub open spec fn thread_key(item: Item) -> (Seq<char>, Seq<char>) {
    (item.from@, normalized(item.title@))
}

/// The position of the first item of `s` in thread `k`, if any.
pub open spec fn key_position(s: Seq<Item>, k: (Seq<char>, Seq<char>)) -> Option<int> {
    if exists|j: int| 0 <= j < s.len() && thread_key(#[trigger] s[j]) == k {
        Some(choose|j: int| 0 <= j < s.len() && thread_key(#[trigger] s[j]) == k)
    } else {
        None
    }
}

/// The threads of `items`, one item each: in the order in which each thread
/// first appears, holding the last item of the thread.
pub open spec fn collapse_threads(items: Seq<Item>) -> Seq<Item>
    decreases items.len(),
{
    if items.len() == 0 {
        Seq::empty()
    } else {
        let prev = collapse_threads(items.drop_last());
        let x = items.last();
        match key_position(prev, thread_key(x)) {
            Some(j) => prev.update(j, x),
            None => prev.push(x),
        }
    }
}

/// No two items of `s` belong to the same thread.
pub open spec fn distinct_threads(s: Seq<Item>) -> bool {
    forall|a: int, b: int|
        0 <= a < s.len() && 0 <= b < s.len() && a != b ==> thread_key(#[trigger] s[a])
            != thread_key(#[trigger] s[b])
}

proof fn lemma_collapse_distinct(items: Seq<Item>)
    ensures
        distinct_threads(collapse_threads(items)),
    decreases items.len(),
{
    if items.len() > 0 {
        lemma_collapse_distinct(items.drop_last());
        let prev = collapse_threads(items.drop_last());
        let x = items.last();
        let r = collapse_threads(items);
        match key_position(prev, thread_key(x)) {
            Some(j) => {
                assert forall|a: int, b: int|
                    0 <= a < r.len() && 0 <= b < r.len() && a != b implies thread_key(
                    #[trigger] r[a],
                ) != thread_key(#[trigger] r[b]) by {
                    assert(thread_key(r[a]) == thread_key(prev[a]));
                    assert(thread_key(r[b]) == thread_key(prev[b]));
                }
            },
            None => {
                assert forall|a: int, b: int|
                    0 <= a < r.len() && 0 <= b < r.len() && a != b implies thread_key(
                    #[trigger] r[a],
                ) != thread_key(#[trigger] r[b]) by {
                    if a == prev.len() {
                        assert(r[b] == prev[b]);
                    } else if b == prev.len() {
                        assert(r[a] == prev[a]);
                    }
                }
            },
        }
    }
}

/// Collapses the items of each thread (see `thread_key`) into one: the last
/// item of the thread, at the place where the thread first appears.
pub fn dedup_threads(items: Vec<Item>) -> (r: Vec<Item>)
    ensures
        r@ == collapse_threads(items@),
        distinct_threads(r@),
{
    let mut result: Vec<Item> = Vec::new();
    let mut keys: Vec<(String, String)> = Vec::new();
    let mut i: usize = 0;
    while i < items.len()
        invariant
            i <= items.len(),
            result@ == collapse_threads(items@.take(i as int)),
            keys.len() == result.len(),
            forall|j: int|
                0 <= j < keys.len() ==> (#[trigger] keys@[j].0@, keys@[j].1@) == thread_key(
                    result@[j],
                ),
        decreases items.len() - i,
    {
        let item = items[i].duplicate();
        let norm = normalize_subject(item.title.as_str());
        let mut j: usize = 0;
        let mut found = false;
        while j < keys.len()
            invariant
                j <= keys.len(),
                keys.len() == result.len(),
                forall|m: int| 0 <= m < j ==> thread_key(#[trigger] result@[m]) != (item.from@, norm@),
                found ==> j < keys.len() && thread_key(result@[j as int]) == (item.from@, norm@),
                forall|m: int|
                    0 <= m < keys.len() ==> (#[trigger] keys@[m].0@, keys@[m].1@) == thread_key(
                        result@[m],
                    ),
            ensures
                !found ==> j == keys.len(),
                forall|m: int| 0 <= m < j ==> thread_key(#[trigger] result@[m]) != (item.from@, norm@),
                found ==> j < keys.len() && thread_key(result@[j as int]) == (item.from@, norm@),
            decreases keys.len() - j + if found { 0int } else { 1int },
        {
            if found {
                break;
            }
            if keys[j].0 == item.from && keys[j].1 == norm {
                found = true;
            } else {
                j += 1;
            }
        }
        proof {
            let prefix = items@.take(i + 1);
            assert(prefix.drop_last() == items@.take(i as int));
            assert(prefix.last() == items@[i as int]);
        }
        if found {
            proof {
                let prev = result@;
                let k = thread_key(item);
                assert(exists|m: int| 0 <= m < prev.len() && thread_key(#[trigger] prev[m]) == k);
                let c = choose|m: int| 0 <= m < prev.len() && thread_key(#[trigger] prev[m]) == k;
                lemma_collapse_distinct(items@.take(i as int));
                assert(c == j);
            }
            result.set(j, item);
        } else {
            proof {
                let prev = result@;
                let k = thread_key(item);
                assert(!exists|m: int| 0 <= m < prev.len() && thread_key(#[trigger] prev[m]) == k);
            }
            keys.push((item.from.clone(), norm));
            result.push(item);
        }
        i += 1;
    }
    proof {
        assert(items@.take(items@.len() as int) == items@);
        lemma_collapse_distinct(items@);
    }
    result
}

} // verus!

verus! {

/// Law: collapsing threads keeps one item per thread, and that item is the
/// last one the thread had: the result is no longer than the input, every
/// thread of the input is present, and each kept item is an input item after
/// which its thread does not occur again.
#[verifier::spinoff_prover]
#[verifier::rlimit(50)]
pub proof fn collapse_threads_keeps_last_of_each_thread(items: Seq<Item>)
    ensures
        collapse_threads(items).len() <= items.len(),
        distinct_threads(collapse_threads(items)),
        forall|i: int|
            0 <= i < items.len() ==> exists|j: int|
                0 <= j < collapse_threads(items).len() && thread_key(
                    #[trigger] collapse_threads(items)[j],
                ) == thread_key(#[trigger] items[i]),
        forall|j: int|
            0 <= j < collapse_threads(items).len() ==> exists|i: int|
                0 <= i < items.len() && #[trigger] collapse_threads(items)[j] == items[i] && forall|
                    m: int,
                |
                    i < m < items.len() ==> thread_key(#[trigger] items[m]) != thread_key(
                        collapse_threads(items)[j],
                    ),
    decreases items.len(),
{
    lemma_collapse_distinct(items);
    if items.len() > 0 {
        let init = items.drop_last();
        collapse_threads_keeps_last_of_each_thread(init);
        lemma_collapse_distinct(init);
        let prev = collapse_threads(init);
        let x = items.last();
        let r = collapse_threads(items);
        let n = items.len() - 1;
        assert forall|i: int| 0 <= i < items.len() implies exists|j: int|
            0 <= j < r.len() && thread_key(#[trigger] r[j]) == thread_key(#[trigger] items[i]) by {
            if i < n {
                assert(items[i] == init[i]);
                let j = choose|j: int| 0 <= j < prev.len() && thread_key(#[trigger] prev[j]) == thread_key(init[i]);
                match key_position(prev, thread_key(x)) {
                    Some(p) => {
                        assert(thread_key(r[j]) == thread_key(prev[j]));
                    },
                    None => {
                        assert(r[j] == prev[j]);
                    },
                }
            } else {
                match key_position(prev, thread_key(x)) {
                    Some(p) => {
                        assert(r[p] == x);
                    },
                    None => {
                        assert(r[prev.len() as int] == x);
                    },
                }
            }
        }
        assert forall|j: int| 0 <= j < r.len() implies exists|i: int|
            0 <= i < items.len() && #[trigger] r[j] == items[i] && forall|m: int|
                i < m < items.len() ==> thread_key(#[trigger] items[m]) != thread_key(r[j]) by {
            match key_position(prev, thread_key(x)) {
                Some(p) => {
                    if j == p {
                        assert(r[j] == items[n]);
                    } else {
                        assert(r[j] == prev[j]);
                        let i = choose|i: int|
                            0 <= i < init.len() && #[trigger] prev[j] == init[i] && forall|m: int|
                                i < m < init.len() ==> thread_key(#[trigger] init[m]) != thread_key(
                                    prev[j],
                                );
                        assert(items[i] == init[i]);
                        assert forall|m: int| i < m < items.len() implies thread_key(
                            #[trigger] items[m],
                        ) != thread_key(r[j]) by {
                            if m < n {
                                assert(items[m] == init[m]);
                            } else {
                                assert(thread_key(prev[p]) == thread_key(x));
                            }
                        }
                    }
                },
                None => {
                    if j == prev.len() {
                        assert(r[j] == items[n]);
                    } else {
                        assert(r[j] == prev[j]);
                        let i = choose|i: int|
                            0 <= i < init.len() && #[trigger] prev[j] == init[i] && forall|m: int|
                                i < m < init.len() ==> thread_key(#[trigger] init[m]) != thread_key(
                                    prev[j],
                                );
                        assert(items[i] == init[i]);
                        assert forall|m: int| i < m < items.len() implies thread_key(
                            #[trigger] items[m],
                        ) != thread_key(r[j]) by {
                            if m < n {
                                assert(items[m] == init[m]);
                            } else {
                                assert(items[m] == x);
                                assert(!(0 <= j < prev.len() && thread_key(prev[j]) == thread_key(x)));
                            }
                        }
                    }
                },
            }
        }
    }
}

/// Collapsing a sequence whose items are all in different threads leaves it
/// as it is.
proof fn lemma_collapse_distinct_is_identity(s: Seq<Item>)
    requires
        distinct_threads(s),
    ensures
        collapse_threads(s) == s,
    decreases s.len(),
{
    if s.len() > 0 {
        let init = s.drop_last();
        assert forall|a: int, b: int|
            0 <= a < init.len() && 0 <= b < init.len() && a != b implies thread_key(
            #[trigger] init[a],
        ) != thread_key(#[trigger] init[b]) by {
            assert(init[a] == s[a] && init[b] == s[b]);
        }
        lemma_collapse_distinct_is_identity(init);
        let x = s.last();
        assert(!exists|j: int| 0 <= j < init.len() && thread_key(#[trigger] init[j]) == thread_key(x)) by {
            if exists|j: int| 0 <= j < init.len() && thread_key(#[trigger] init[j]) == thread_key(x) {
                let j = choose|j: int| 0 <= j < init.len() && thread_key(#[trigger] init[j]) == thread_key(x);
                assert(s[j] == init[j]);
                assert(s[s.len() - 1] == x);
            }
        }
        assert(init.push(x) == s);
    }
}

/// Law: collapsing threads twice gives what collapsing once gave.
pub proof fn collapse_threads_is_idempotent(items: Seq<Item>)
    ensures
        collapse_threads(collapse_threads(items)) == collapse_threads(items),
{
    lemma_collapse_distinct(items);
    lemma_collapse_distinct_is_identity(collapse_threads(items));
}

} // verus!

verus! {

/// `u` neither begins nor ends with whitespace.
pub open spec fn is_trimmed(u: Seq<char>) -> bool {
    u.len() > 0 ==> !is_ws(u[0]) && !is_ws(u.last())
}

proof fn lemma_trim_start_suffix(s: Seq<char>)
    ensures
        trim_start(s).len() <= s.len(),
        trim_start(s) == s.skip(s.len() - trim_start(s).len()),
        trim_start(s).len() > 0 ==> !is_ws(trim_start(s)[0]),
    decreases s.len(),
{
    if s.len() > 0 && is_ws(s[0]) {
        lemma_trim_start_suffix(s.drop_first());
        let t = trim_start(s.drop_first());
        assert(s.drop_first().skip(s.drop_first().len() - t.len()) == s.skip(s.len() - t.len()));
    } else {
        assert(s.skip(0) == s);
    }
}

proof fn lemma_trim_end_prefix(s: Seq<char>)
    ensures
        trim_end(s).len() <= s.len(),
        trim_end(s) == s.take(trim_end(s).len() as int),
        trim_end(s).len() > 0 ==> !is_ws(trim_end(s).last()),
    decreases s.len(),
{
    if s.len() > 0 && is_ws(s.last()) {
        lemma_trim_end_prefix(s.drop_last());
        let t = trim_end(s.drop_last());
        assert(s.drop_last().take(t.len() as int) == s.take(t.len() as int));
    } else {
        assert(s.take(s.len() as int) == s);
    }
}

proof fn lemma_trim_is_trimmed(s: Seq<char>)
    ensures
        is_trimmed(trim(s)),
{
    let a = trim_start(s);
    lemma_trim_start_suffix(s);
    lemma_trim_end_prefix(a);
    let b = trim_end(a);
    if b.len() > 0 {
        assert(b[0] == a[0]);
    }
}

proof fn lemma_trimmed_trim(u: Seq<char>)
    requires
        is_trimmed(u),
    ensures
        trim(u) == u,
{
    if u.len() > 0 {
        assert(trim_start(u) == u);
        assert(trim_end(u) == u);
    } else {
        assert(trim_start(u) == u);
        assert(trim_end(u) == u);
    }
}

proof fn lemma_strip_from_trimmed(t: Seq<char>, i: int)
    requires
        is_trimmed(t),
    ensures
        strip_from(t, i) matches Some(u) ==> is_trimmed(u),
    decreases reply_prefix_count() - i,
{
    if 0 <= i < reply_prefix_count() {
        if strips_with(t, reply_prefix(i)) {
            let k = reply_prefix(i).len() as int;
            let w = t.skip(k);
            lemma_trim_start_suffix(w);
            let u = trim_start(w);
            assert(u.last() == w.last());
            assert(w.last() == t.last());
        } else {
            lemma_strip_from_trimmed(t, i + 1);
        }
    }
}

proof fn lemma_strip_all_final(t: Seq<char>)
    requires
        is_trimmed(t),
    ensures
        is_trimmed(strip_all(t)),
        strip_reply(strip_all(t)) is None,
    decreases t.len(),
{
    match strip_reply(t) {
        Some(u) => {
            lemma_strip_from_shorter(t, 0);
            lemma_strip_from_trimmed(t, 0);
            lemma_strip_all_final(u);
        },
        None => {},
    }
}

/// Law: a thread subject is its own thread subject; normalising twice gives
/// what normalising once gave.
pub proof fn normalize_subject_is_idempotent(subject: Seq<char>)
    ensures
        normalized(normalized(subject)) == normalized(subject),
{
    lemma_trim_is_trimmed(subject);
    lemma_strip_all_final(trim(subject));
    let r = normalized(subject);
    lemma_trimmed_trim(r);
}

} // verus!
