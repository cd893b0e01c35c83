//! Summarising: the `Agent` interface a language model is reached through,
//! and the settings for a local Ollama server.
use vstd::prelude::*;
use crate::text::{
    lemma_text_less_total, lemma_text_less_transitive, text_less, text_less_exec,
};
use crate::text::{trim, trim_string};
use crate::text::{byte_len, decimal, from_char_range, push_decimal, push_str, to_chars, utf8_width_exec};
use crate::clock::{long_date, now_utc};
use crate::commands::brief_date;
use crate::Item;

verus! {

/// Something that writes a brief from a list of items. Errors are reported
/// as messages.
pub trait Agent {
    /// The agent may give the answer `r` (a brief, or an error message) when
    /// asked for a brief of `items`. An agent kept outside the verified
    /// library cannot define it; for it any answer is allowed.
    closed spec fn answers(&self, items: Seq<Item>, r: Result<Seq<char>, Seq<char>>) -> bool {
        true
    }

    /// A brief of `items`.
    fn summarize_items(&self, items: &[Item]) -> (r: Result<String, String>)
        ensures
            self.answers(items@, text_result(r)),
    ;
}

/// A result of texts, as plain text.
pub open spec fn text_result(r: Result<String, String>) -> Result<Seq<char>, Seq<char>> {
    match r {
        Ok(s) => Ok(s@),
        Err(e) => Err(e@),
    }
}

/// `s` without the `/` characters at its end (std's `trim_end_matches('/')`).
pub open spec fn without_trailing_slashes(s: Seq<char>) -> Seq<char>
    decreases s.len(),
{
    if s.len() > 0 && s.last() == '/' {
        without_trailing_slashes(s.drop_last())
    } else {
        s
    }
}

/// Where and with which model a local Ollama server is asked for briefs.
pub struct OllamaAgent {
    base_url: String,
    model: String,
}

impl OllamaAgent {
    /// The server's base URL, without trailing slashes.
    pub closed spec fn base_url_view(&self) -> Seq<char> {
        self.base_url@
    }

    /// The model to ask.
    pub closed spec fn model_view(&self) -> Seq<char> {
        self.model@
    }

    /// Settings for the server at `base_url` (trailing slashes are dropped)
    /// and the model `model`.
    pub fn new(base_url: &str, model: &str) -> (a: Self)
        ensures
            a.base_url_view() == without_trailing_slashes(base_url@),
            a.model_view() == model@,
    {
        let v = to_chars(base_url);
        let mut end = v.len();
        assert(v@.take(v@.len() as int) == v@);
        while end > 0 && v[end - 1] == '/'
            invariant
                end <= v.len(),
                v@ == base_url@,
                without_trailing_slashes(v@.take(end as int)) == without_trailing_slashes(base_url@),
            decreases end,
        {
            proof {
                assert(v@.take(end as int).drop_last() == v@.take(end - 1));
                assert(v@.take(end as int).last() == v@[end - 1]);
            }
            end -= 1;
        }
        proof {
            assert(v@.take(v@.len() as int) == v@);
            if end > 0 {
                assert(v@.take(end as int).last() == v@[end - 1]);
            }
            assert(v@.subrange(0, end as int) == v@.take(end as int));
        }
        Self { base_url: from_char_range(&v, 0, end), model: model.to_owned() }
    }

    /// The server's base URL, without trailing slashes.
    pub fn base_url(&self) -> (r: &String)
        ensures
            r@ == self.base_url_view(),
    {
        &self.base_url
    }

    /// The model to ask.
    pub fn model(&self) -> (r: &String)
        ensures
            r@ == self.model_view(),
    {
        &self.model
    }
}

} // verus!

verus! {

/// The first position `i` from `from` on at which the character of `s` there
/// starts at byte `max` or later, or the end of `s`.
pub open spec fn first_start_from(s: Seq<char>, max: nat, from: int) -> int
    decreases s.len() - from,
{
    if from < 0 || from >= s.len() || byte_len(s.take(from)) >= max {
        if from < 0 { 0 } else { from }
    } else {
        first_start_from(s, max, from + 1)
    }
}

/// `s` cut after its last character that starts before byte `max`: the
/// characters that start at byte `max` or later are dropped, a character
/// that straddles `max` is kept whole.
pub open spec fn truncated(s: Seq<char>, max: nat) -> Seq<char> {
    s.take(first_start_from(s, max, 0))
}

/// `s` cut after its last character that starts before byte `max` (see
/// `truncated`); a string of at most `max` bytes is returned as it is.
pub fn truncate(s: &str, max: usize) -> (r: String)
    ensures
        r@ == truncated(s@, max as nat),
{
    let v = to_chars(s);
    let mut i: usize = 0;
    let mut off: u128 = 0;
    while i < v.len() && off < max as u128
        invariant
            v@ == s@,
            i <= v.len(),
            off as nat == byte_len(v@.take(i as int)),
            off <= max as u128 + 4,
            first_start_from(v@, max as nat, i as int) == first_start_from(v@, max as nat, 0),
        decreases v.len() - i,
    {
        proof {
            assert(v@.take(i + 1).drop_last() == v@.take(i as int));
            assert(v@.take(i + 1).last() == v@[i as int]);
        }
        off = off + utf8_width_exec(v[i]) as u128;
        i += 1;
    }
    proof {
        assert(first_start_from(v@, max as nat, i as int) == i);
    }
    from_char_range(&v, 0, i)
}

} // verus!

verus! {

proof fn lemma_prefix_fewer_bytes(s: Seq<char>, i: int)
    requires
        0 <= i < s.len(),
    ensures
        byte_len(s.take(i)) < byte_len(s),
    decreases s.len(),
{
    let init = s.drop_last();
    if i == s.len() - 1 {
        assert(s.take(i) == init);
    } else {
        lemma_prefix_fewer_bytes(init, i);
        assert(s.take(i) == init.take(i));
    }
}

proof fn lemma_all_start_before(s: Seq<char>, max: nat, from: int)
    requires
        0 <= from <= s.len(),
        byte_len(s) <= max,
    ensures
        first_start_from(s, max, from) == s.len(),
    decreases s.len() - from,
{
    if from < s.len() {
        lemma_prefix_fewer_bytes(s, from);
        lemma_all_start_before(s, max, from + 1);
    }
}

/// Law: truncating leaves alone a string whose encoding fits in `max` bytes.
pub proof fn truncate_keeps_what_fits(s: Seq<char>, max: nat)
    requires
        byte_len(s) <= max,
    ensures
        truncated(s, max) == s,
{
    lemma_all_start_before(s, max, 0);
    assert(s.take(s.len() as int) == s);
}

/// Law: truncating gives a beginning of the string.
pub proof fn truncate_gives_a_prefix(s: Seq<char>, max: nat)
    ensures
        truncated(s, max).len() <= s.len(),
        truncated(s, max) == s.take(truncated(s, max).len() as int),
{
    lemma_first_start_bounds(s, max, 0);
}

proof fn lemma_first_start_bounds(s: Seq<char>, max: nat, from: int)
    requires
        0 <= from <= s.len(),
    ensures
        from <= first_start_from(s, max, from) <= s.len(),
    decreases s.len() - from,
{
    if from < s.len() && byte_len(s.take(from)) < max {
        lemma_first_start_bounds(s, max, from + 1);
    }
}

/// The instructions the model is given with every request.
pub open spec fn system_prompt() -> Seq<char> {
    "You are an email digest assistant. Summarize emails into a concise daily brief. Only use information present in the emails \u{2014} never add external knowledge. No section headers or categories. Output plain text, no markdown formatting."@
}

/// The entry for item `item`, listed as number `n`: sender, subject, and the
/// body cut to 500 bytes (see `truncated`).
pub open spec fn email_entry(n: nat, item: Item) -> Seq<char> {
    decimal(n) + ". From: "@ + item.from@ + " | Subject: "@ + item.title@ + "\n   Body: "@
        + truncated(item.body@, 500) + "\n\n"@
}

/// The numbered entries of `items`, the first numbered 1.
pub open spec fn email_list(items: Seq<Item>) -> Seq<char>
    decreases items.len(),
{
    if items.len() == 0 {
        Seq::empty()
    } else {
        email_list(items.drop_last()) + email_entry(items.len(), items.last())
    }
}

/// The request for a brief of `items`, written on the day `today`.
pub open spec fn user_prompt(today: Seq<char>, items: Seq<Item>) -> Seq<char> {
    "Today is "@ + today + ". Below are emails from the last week.\n\n"@ + email_list(items)
        + "List personal messages and action items concisely. Under 150 words."@
}

/// The system prompt and the request (see `system_prompt` and
/// `user_prompt`) for a brief of `items` written on the day `today`.
pub fn compose_prompts(items: &[Item], today: &str) -> (r: (String, String))
    ensures
        r.0@ == system_prompt(),
        r.1@ == user_prompt(today@, items@),
{
    let mut user = "Today is ".to_owned();
    push_str(&mut user, today);
    push_str(&mut user, ". Below are emails from the last week.\n\n");
    let ghost head = user@;
    let mut i: usize = 0;
    while i < items.len()
        invariant
            i <= items.len(),
            user@ == head + email_list(items@.take(i as int)),
        decreases items.len() - i,
    {
        proof {
            assert(items@.take(i + 1).drop_last() == items@.take(i as int));
            assert(items@.take(i + 1).last() == items@[i as int]);
        }
        let ghost before = user@;
        push_decimal(&mut user, (i + 1) as u64);
        push_str(&mut user, ". From: ");
        push_str(&mut user, items[i].from.as_str());
        push_str(&mut user, " | Subject: ");
        push_str(&mut user, items[i].title.as_str());
        push_str(&mut user, "\n   Body: ");
        let body = truncate(items[i].body.as_str(), 500);
        push_str(&mut user, body.as_str());
        push_str(&mut user, "\n\n");
        proof {
            assert(user@ =~= before + email_entry((i + 1) as nat, items@[i as int]));
        }
        i += 1;
    }
    assert(items@.take(items@.len() as int) == items@);
    push_str(&mut user, "List personal messages and action items concisely. Under 150 words.");
    let system = "You are an email digest assistant. Summarize emails into a concise daily brief. Only use information present in the emails \u{2014} never add external knowledge. No section headers or categories. Output plain text, no markdown formatting.".to_owned();
    (system, user)
}

/// The system prompt and the request for a brief of `items` (see
/// `compose_prompts`), dated with the day of the moment the clock gives (see
/// `brief_date`).
pub fn build_prompts(items: &[Item]) -> (r: (String, String))
    ensures
        r.0@ == system_prompt(),
        exists|now: i64| r.1@ == user_prompt(brief_date(now), items@),
{
    let now = now_utc().secs;
    let today = match long_date(now) {
        Some(t) => t,
        None => String::new(),
    };
    proof {
        reveal_strlit("");
    }
    assert(today@ == brief_date(now));
    compose_prompts(items, today.as_str())
}

} // verus!

verus! {

/// The names `v` are in `String` order: no name comes before an earlier one.
pub open spec fn in_text_order(v: Seq<String>) -> bool {
    forall|i: int, j: int| 0 <= i < j < v.len() ==> !text_less(#[trigger] v[j]@, #[trigger] v[i]@)
}

proof fn lemma_not_less_chain(a: Seq<char>, b: Seq<char>, x: Seq<char>)
    requires
        !text_less(a, b),
        text_less(x, b),
    ensures
        !text_less(a, x),
{
    lemma_text_less_total(a, b);
    if a != b {
        lemma_text_less_transitive(x, b, a);
    }
    lemma_text_less_total(a, x);
}

/// The model names `names` in `String` order, as std's `sort` leaves them.
pub fn sort_model_names(names: Vec<String>) -> (r: Vec<String>)
    ensures
        r@.to_multiset() == names@.to_multiset(),
        in_text_order(r@),
{
    let mut r: Vec<String> = Vec::new();
    let mut i: usize = 0;
    assert(r@ =~= names@.take(0));
    while i < names.len()
        invariant
            i <= names.len(),
            r@.to_multiset() == names@.take(i as int).to_multiset(),
            in_text_order(r@),
        decreases names.len() - i,
    {
        let x = names[i].clone();
        let mut j: usize = 0;
        while j < r.len() && !text_less_exec(x.as_str(), r[j].as_str())
            invariant
                j <= r.len(),
                forall|k: int| 0 <= k < j ==> !text_less(x@, #[trigger] r@[k]@),
            decreases r.len() - j,
        {
            j += 1;
        }
        let ghost old_r = r@;
        r.insert(j, x);
        proof {
            assert(r@ == old_r.insert(j as int, x));
            assert(names@.take(i + 1) == names@.take(i as int).push(names@[i as int]));
            assert(r@.remove(j as int) == old_r);
            assert(r@[j as int] == x);
            assert(r@.contains(x));
            r@.to_multiset_ensures();
            old_r.to_multiset_ensures();
            names@.take(i as int).to_multiset_ensures();
            assert(r@.to_multiset().count(x) > 0);
            assert(old_r.to_multiset() == r@.to_multiset().remove(x));
            assert(r@.to_multiset() =~= old_r.to_multiset().insert(x));
            assert forall|a: int, b: int| 0 <= a < b < r@.len() implies !text_less(
                #[trigger] r@[b]@,
                #[trigger] r@[a]@,
            ) by {
                if b < j {
                    assert(r@[a] == old_r[a] && r@[b] == old_r[b]);
                } else if b == j {
                    assert(r@[a] == old_r[a]);
                } else if a == j {
                    assert(r@[b] == old_r[b - 1]);
                    assert(text_less(x@, old_r[j as int]@));
                    if b - 1 > j {
                        assert(!text_less(old_r[b - 1]@, old_r[j as int]@));
                        lemma_not_less_chain(old_r[b - 1]@, old_r[j as int]@, x@);
                    } else {
                        lemma_text_less_total(x@, old_r[j as int]@);
                    }
                } else if a < j {
                    assert(r@[a] == old_r[a] && r@[b] == old_r[b - 1]);
                } else {
                    assert(r@[a] == old_r[a - 1] && r@[b] == old_r[b - 1]);
                }
            }
        }
        i += 1;
    }
    assert(names@.take(names@.len() as int) == names@);
    r
}

} // verus!

verus! {

impl OllamaAgent {
    /// Where briefs are asked for: the base URL followed by "/api/generate".
    pub fn generate_url(&self) -> (r: String)
        ensures
            r@ == self.base_url_view() + "/api/generate"@,
    {
        let mut s = self.base_url.clone();
        push_str(&mut s, "/api/generate");
        s
    }
}

/// Where the models of the server at `base_url` are listed: the URL without
/// trailing slashes, followed by "/api/tags".
pub fn tags_url(base_url: &str) -> (r: String)
    ensures
        r@ == without_trailing_slashes(base_url@) + "/api/tags"@,
{
    let a = OllamaAgent::new(base_url, "");
    let mut s = a.base_url().clone();
    push_str(&mut s, "/api/tags");
    s
}

/// The brief in the model's reply `reply`: the reply, trimmed.
pub fn brief_from_reply(reply: &str) -> (r: String)
    ensures
        r@ == trim(reply@),
{
    trim_string(reply)
}

} // verus!
