//! Decisions behind the command line: how mailbox names are shown, how
//! answers to prompts are read, and how stored items are reported.
use vstd::prelude::*;
use vstd::string::StrSliceExecFns;
use crate::email::{ascii_lower, ascii_lower_char};
use crate::config::AppConfig;
use crate::fetcher::{categories, categories_of};
use crate::text::{
    decimal, parse_unsigned, parse_unsigned_exec, push_char, push_decimal, push_str, same_text, starts_with,
    starts_with_exec, to_chars, trim, trim_string,
};

verus! {

/// The prefix that marks a Gmail category presented as a mailbox.
pub open spec fn category_prefix() -> Seq<char> {
    "@@CATEGORY@@/"@
}

/// How a mailbox is shown: a Gmail category by its bare name, anything else
/// as it is.
pub open spec fn shown_name(raw: Seq<char>) -> Seq<char> {
    if starts_with(raw, category_prefix()) {
        raw.skip(category_prefix().len() as int)
    } else {
        raw
    }
}

/// The name to show for mailbox `raw` (see `shown_name`).
pub fn display_name(raw: &str) -> (r: &str)
    ensures
        r@ == shown_name(raw@),
{
    if starts_with_exec(raw, "@@CATEGORY@@/") {
        let n = raw.unicode_len();
        proof {
            reveal_strlit("@@CATEGORY@@/");
        }
        raw.substring_char(13, n)
    } else {
        raw
    }
}

/// The value an answer to a prompt gives: the trimmed answer, or the current
/// value when the answer is blank.
pub open spec fn answered_value(input: Seq<char>, current: Seq<char>) -> Seq<char> {
    if trim(input).len() == 0 {
        current
    } else {
        trim(input)
    }
}

/// The value an answer to a prompt gives (see `answered_value`).
pub fn prompt_value(input: &str, current: &str) -> (r: String)
    ensures
        r@ == answered_value(input@, current@),
{
    let trimmed = trim_string(input);
    if trimmed.as_str().is_empty() {
        current.to_owned()
    } else {
        trimmed
    }
}

/// The port an answer gives: the trimmed answer read as a port number, unless
/// it is not one or is zero, in which case the current port stays.
pub open spec fn answered_port(input: Seq<char>, current: u16) -> u16 {
    match parse_unsigned(trim(input), 65535) {
        Some(p) if p > 0 => p as u16,
        _ => current,
    }
}

/// The port an answer gives (see `answered_port`).
pub fn parse_port(input: &str, current: u16) -> (r: u16)
    ensures
        r == answered_port(input@, current),
{
    let trimmed = trim_string(input);
    match parse_unsigned_exec(trimmed.as_str(), 65535) {
        Some(p) if p > 0 => p as u16,
        _ => current,
    }
}

} // verus!

verus! {

/// `n` right-aligned in a field two characters wide, as `{:2}` writes it.
pub open spec fn padded2(n: nat) -> Seq<char> {
    if n < 10 {
        " "@ + decimal(n)
    } else {
        decimal(n)
    }
}

fn push_padded2(s: &mut String, n: u64)
    ensures
        final(s)@ == old(s)@ + padded2(n as nat),
{
    if n < 10 {
        push_str(s, " ");
    }
    let ghost mid = s@;
    push_decimal(s, n);
    assert(s@ =~= old(s)@ + padded2(n as nat));
}

/// The menu line for mailbox `name`, listed at index `i` (numbered `i + 1`):
/// its shown name, marked when it is the inbox or a Gmail category.
pub open spec fn mailbox_entry(i: nat, name: Seq<char>) -> Seq<char> {
    "  "@ + padded2(i + 1) + ". "@ + shown_name(name) + (if name == "INBOX"@ {
        " (default)"@
    } else {
        Seq::empty()
    }) + (if starts_with(name, category_prefix()) {
        " (category)"@
    } else {
        Seq::empty()
    })
}

/// The menu line for mailbox `name` at index `i` (see `mailbox_entry`).
pub fn mailbox_menu_line(i: usize, name: &str) -> (r: String)
    requires
        i < usize::MAX,
    ensures
        r@ == mailbox_entry(i as nat, name@),
{
    let mut s = "  ".to_owned();
    push_padded2(&mut s, (i + 1) as u64);
    push_str(&mut s, ". ");
    push_str(&mut s, display_name(name));
    let ghost base = s@;
    proof {
        reveal_strlit("INBOX");
    }
    if same_text(name, "INBOX") {
        push_str(&mut s, " (default)");
    }
    let ghost mid = s@;
    if starts_with_exec(name, "@@CATEGORY@@/") {
        push_str(&mut s, " (category)");
    }
    assert(s@ =~= mailbox_entry(i as nat, name@));
    s
}

/// The menu line for model `name` at index `i` (numbered `i + 1`), marked
/// when it is the model in use, `current`.
pub open spec fn model_entry(i: nat, name: Seq<char>, current: Seq<char>) -> Seq<char> {
    "  "@ + padded2(i + 1) + ". "@ + name + (if name == current {
        " (current)"@
    } else {
        Seq::empty()
    })
}

/// The menu line for model `name` at index `i` (see `model_entry`).
pub fn model_menu_line(i: usize, name: &str, current: &str) -> (r: String)
    requires
        i < usize::MAX,
    ensures
        r@ == model_entry(i as nat, name@, current@),
{
    let mut s = "  ".to_owned();
    push_padded2(&mut s, (i + 1) as u64);
    push_str(&mut s, ". ");
    push_str(&mut s, name);
    let ghost base = s@;
    if same_text(name, current) {
        push_str(&mut s, " (current)");
    }
    assert(s@ =~= model_entry(i as nat, name@, current@));
    s
}

/// The number an answer names when it picks one of `count` listed entries:
/// the trimmed answer read as a `usize`, if it lies between 1 and `count`.
pub open spec fn picked_number(input: Seq<char>, count: nat) -> Option<nat> {
    match parse_unsigned(trim(input), usize::MAX as nat) {
        Some(k) if 1 <= k <= count => Some(k),
        _ => None,
    }
}

fn pick_number(input: &str, count: usize) -> (r: Option<usize>)
    ensures
        match r {
            Some(k) => picked_number(input@, count as nat) == Some(k as nat),
            None => picked_number(input@, count as nat) is None,
        },
{
    let trimmed = trim_string(input);
    match parse_unsigned_exec(trimmed.as_str(), usize::MAX as u64) {
        Some(k) => {
            if 1 <= k && k <= count as u64 {
                Some(k as usize)
            } else {
                None
            }
        },
        None => None,
    }
}

/// The model an answer to the model menu picks: the listed model it numbers,
/// else the model in use.
pub open spec fn chosen_model(input: Seq<char>, models: Seq<String>, current: Seq<char>) -> Seq<char> {
    match picked_number(input, models.len()) {
        Some(k) => models[k - 1]@,
        None => current,
    }
}

/// The model an answer to the model menu picks (see `chosen_model`).
pub fn choose_model(input: &str, models: &[String], current: &str) -> (r: String)
    ensures
        r@ == chosen_model(input@, models@, current@),
{
    match pick_number(input, models.len()) {
        Some(k) => models[k - 1].clone(),
        None => current.to_owned(),
    }
}

} // verus!

verus! {

/// The pieces of `s` between commas, as std's `str::split(',')` gives them:
/// always at least one, possibly empty.
pub open spec fn comma_parts(s: Seq<char>) -> Seq<Seq<char>>
    decreases s.len(),
{
    if s.len() == 0 {
        seq![Seq::empty()]
    } else if s.last() == ',' {
        comma_parts(s.drop_last()).push(Seq::empty())
    } else {
        let p = comma_parts(s.drop_last());
        p.update(p.len() - 1, p.last().push(s.last()))
    }
}

proof fn lemma_comma_parts_nonempty(s: Seq<char>)
    ensures
        comma_parts(s).len() >= 1,
    decreases s.len(),
{
    if s.len() > 0 {
        lemma_comma_parts_nonempty(s.drop_last());
    }
}

/// The names of the strings `v`.
pub open spec fn names(v: Seq<String>) -> Seq<Seq<char>> {
    v.map_values(|s: String| s@)
}

/// "INBOX", then each mailbox of `mailboxes` that one of the answers `parts`
/// numbers, once, in the order in which they are first numbered; answers
/// that number nothing are passed over.
pub open spec fn picked_mailboxes(parts: Seq<Seq<char>>, mailboxes: Seq<String>) -> Seq<Seq<char>>
    decreases parts.len(),
{
    if parts.len() == 0 {
        seq!["INBOX"@]
    } else {
        let prev = picked_mailboxes(parts.drop_last(), mailboxes);
        match picked_number(parts.last(), mailboxes.len()) {
            Some(k) => if prev.contains(mailboxes[k - 1]@) {
                prev
            } else {
                prev.push(mailboxes[k - 1]@)
            },
            None => prev,
        }
    }
}

/// The answer is "all", in any case, once trimmed.
pub open spec fn answers_all(input: Seq<char>) -> bool {
    trim(input).map_values(|c: char| ascii_lower(c)) == "all"@
}

/// The names of the mailboxes `v` other than "INBOX", in order.
pub open spec fn other_than_inbox(v: Seq<String>) -> Seq<Seq<char>>
    decreases v.len(),
{
    if v.len() == 0 {
        Seq::empty()
    } else if v.last()@ == "INBOX"@ {
        other_than_inbox(v.drop_last())
    } else {
        other_than_inbox(v.drop_last()).push(v.last()@)
    }
}

/// The mailboxes an answer to the mailbox menu selects, "INBOX" always
/// first: for a blank answer "INBOX" and the Gmail categories; for "all"
/// "INBOX" and every other listed mailbox; else "INBOX" and the mailboxes
/// numbered in the comma-separated answer.
pub open spec fn selected_mailboxes(input: Seq<char>, mailboxes: Seq<String>) -> Seq<Seq<char>> {
    if trim(input).len() == 0 {
        seq!["INBOX"@] + names(categories_of(mailboxes))
    } else if answers_all(input) {
        seq!["INBOX"@] + other_than_inbox(mailboxes)
    } else {
        picked_mailboxes(comma_parts(input), mailboxes)
    }
}

fn listed(v: &Vec<String>, name: &str) -> (r: bool)
    ensures
        r == names(v@).contains(name@),
{
    let mut i: usize = 0;
    while i < v.len()
        invariant
            i <= v.len(),
            forall|k: int| 0 <= k < i ==> v@[k]@ != name@,
        decreases v.len() - i,
    {
        if same_text(v[i].as_str(), name) {
            assert(names(v@)[i as int] == name@);
            return true;
        }
        i += 1;
    }
    proof {
        if names(v@).contains(name@) {
            let k = choose|k: int| 0 <= k < names(v@).len() && names(v@)[k] == name@;
            assert(v@[k]@ == name@);
        }
    }
    false
}

fn is_all_answer(input: &str) -> (r: bool)
    ensures
        r == answers_all(input@),
{
    let t = trim_string(input);
    let v = to_chars(t.as_str());
    proof {
        reveal_strlit("all");
    }
    let ghost low = trim(input@).map_values(|c: char| ascii_lower(c));
    if v.len() != 3 {
        assert(low.len() != "all"@.len());
        return false;
    }
    let r = ascii_lower_char(v[0]) == 'a' && ascii_lower_char(v[1]) == 'l' && ascii_lower_char(v[2])
        == 'l';
    proof {
        if r {
            assert(low =~= "all"@);
        } else {
            assert(low[0] != 'a' || low[1] != 'l' || low[2] != 'l');
        }
    }
    r
}

/// Adds to `selected` the mailbox that the answer `part` numbers, unless it
/// numbers none or that mailbox is already there.
fn take_pick(selected: &mut Vec<String>, part: &str, mailboxes: &[String])
    ensures
        names(final(selected)@) == match picked_number(part@, mailboxes@.len()) {
            Some(k) => if names(old(selected)@).contains(mailboxes@[k - 1]@) {
                names(old(selected)@)
            } else {
                names(old(selected)@).push(mailboxes@[k - 1]@)
            },
            None => names(old(selected)@),
        },
{
    match pick_number(part, mailboxes.len()) {
        Some(k) => {
            if !listed(selected, mailboxes[k - 1].as_str()) {
                selected.push(mailboxes[k - 1].clone());
                assert(names(selected@) =~= names(old(selected)@).push(mailboxes@[k - 1]@));
            }
        },
        None => {},
    }
}

/// The mailboxes an answer to the mailbox menu selects (see
/// `selected_mailboxes`).
pub fn select_mailboxes(input: &str, mailboxes: &[String]) -> (r: Vec<String>)
    ensures
        names(r@) == selected_mailboxes(input@, mailboxes@),
{
    let t = trim_string(input);
    if t.as_str().is_empty() {
        let mut r: Vec<String> = Vec::new();
        r.push("INBOX".to_owned());
        let mut cats = categories(mailboxes);
        r.append(&mut cats);
        assert(names(r@) =~= seq!["INBOX"@] + names(categories_of(mailboxes@)));
        return r;
    }
    if is_all_answer(input) {
        let mut r: Vec<String> = Vec::new();
        r.push("INBOX".to_owned());
        let mut i: usize = 0;
        assert(names(r@) =~= seq!["INBOX"@] + other_than_inbox(mailboxes@.take(0)));
        while i < mailboxes.len()
            invariant
                i <= mailboxes.len(),
                names(r@) == seq!["INBOX"@] + other_than_inbox(mailboxes@.take(i as int)),
            decreases mailboxes.len() - i,
        {
            proof {
                let p = mailboxes@.take(i + 1);
                assert(p.drop_last() == mailboxes@.take(i as int));
                assert(p.last() == mailboxes@[i as int]);
            }
            if !same_text(mailboxes[i].as_str(), "INBOX") {
                let ghost before = r@;
                r.push(mailboxes[i].clone());
                assert(names(r@) =~= names(before).push(mailboxes@[i as int]@));
            }
            assert(names(r@) =~= seq!["INBOX"@] + other_than_inbox(mailboxes@.take(i + 1)));
            i += 1;
        }
        assert(mailboxes@.take(mailboxes@.len() as int) == mailboxes@);
        return r;
    }
    let v = to_chars(input);
    let mut selected: Vec<String> = Vec::new();
    selected.push("INBOX".to_owned());
    let mut cur = String::new();
    let mut i: usize = 0;
    assert(names(selected@) =~= seq!["INBOX"@]);
    while i < v.len()
        invariant
            i <= v.len(),
            v@ == input@,
            comma_parts(v@.take(i as int)).len() >= 1,
            names(selected@) == picked_mailboxes(comma_parts(v@.take(i as int)).drop_last(), mailboxes@),
            cur@ == comma_parts(v@.take(i as int)).last(),
        decreases v.len() - i,
    {
        let ghost pre = v@.take(i as int);
        let ghost post = v@.take(i + 1);
        proof {
            assert(post.drop_last() == pre);
            assert(post.last() == v@[i as int]);
            lemma_comma_parts_nonempty(pre);
        }
        if v[i] == ',' {
            take_pick(&mut selected, cur.as_str(), mailboxes);
            cur = String::new();
            proof {
                let ps = comma_parts(pre);
                assert(ps.drop_last().push(ps.last()) == ps);
                assert(comma_parts(post).drop_last() == ps);
            }
        } else {
            push_char(&mut cur, v[i]);
            proof {
                let ps = comma_parts(pre);
                assert(comma_parts(post).drop_last() == ps.drop_last());
            }
        }
        i += 1;
    }
    take_pick(&mut selected, cur.as_str(), mailboxes);
    proof {
        assert(v@.take(v@.len() as int) == v@);
        let ps = comma_parts(v@);
        assert(ps.drop_last().push(ps.last()) == ps);
    }
    selected
}

} // verus!

verus! {

/// How a setting is shown in the closing summary: "<default>" where it is
/// empty or equal to `default`, else as it is.
pub open spec fn shown_setting(val: Seq<char>, default: Seq<char>) -> Seq<char> {
    if val.len() == 0 || val == default {
        "<default>"@
    } else {
        val
    }
}

fn push_setting(s: &mut String, val: &str, default: &str)
    ensures
        final(s)@ == old(s)@ + shown_setting(val@, default@),
{
    if val.is_empty() || same_text(val, default) {
        push_str(s, "<default>");
    } else {
        push_str(s, val);
    }
}

/// The shown names of the mailboxes `mbx`, separated by ", ".
pub open spec fn joined_names(mbx: Seq<String>) -> Seq<char>
    decreases mbx.len(),
{
    if mbx.len() == 0 {
        Seq::empty()
    } else if mbx.len() == 1 {
        shown_name(mbx[0]@)
    } else {
        joined_names(mbx.drop_last()) + ", "@ + shown_name(mbx.last()@)
    }
}

/// The summary shown when configuration is done: the host, the model's URL
/// and name (each as `shown_setting` shows it) and the chosen mailboxes.
pub open spec fn summary_text(cfg: AppConfig, mbx: Seq<String>) -> Seq<char> {
    "\nStep 3/3 \u{2014} Config Complete!\n"@ + "  IMAP host:     "@ + shown_setting(
        cfg.imap_host@,
        Seq::empty(),
    ) + "\n"@ + "  Ollama URL:    "@ + shown_setting(cfg.ollama_base_url@, "http://localhost:11434"@)
        + "\n"@ + "  Ollama model:  "@ + shown_setting(cfg.ollama_model@, "llama3.2:1b"@) + "\n"@
        + "  Mailboxes:     "@ + joined_names(mbx) + " ("@ + decimal(mbx.len()) + " in total)\n"@
        + "\nRun `br1ef fetch`, then `br1ef digest` when ready.\n"@
}

/// The summary shown when configuration is done (see `summary_text`).
pub fn config_summary(cfg: &AppConfig, mailboxes: &[String]) -> (r: String)
    ensures
        r@ == summary_text(*cfg, mailboxes@),
{
    let mut s = "\nStep 3/3 \u{2014} Config Complete!\n".to_owned();
    push_str(&mut s, "  IMAP host:     ");
    proof {
        reveal_strlit("");
    }
    push_setting(&mut s, cfg.imap_host.as_str(), "");
    push_str(&mut s, "\n");
    push_str(&mut s, "  Ollama URL:    ");
    push_setting(&mut s, cfg.ollama_base_url.as_str(), "http://localhost:11434");
    push_str(&mut s, "\n");
    push_str(&mut s, "  Ollama model:  ");
    push_setting(&mut s, cfg.ollama_model.as_str(), "llama3.2:1b");
    push_str(&mut s, "\n");
    push_str(&mut s, "  Mailboxes:     ");
    let ghost head = s@;
    let mut i: usize = 0;
    while i < mailboxes.len()
        invariant
            i <= mailboxes.len(),
            s@ == head + joined_names(mailboxes@.take(i as int)),
        decreases mailboxes.len() - i,
    {
        proof {
            let p = mailboxes@.take(i + 1);
            assert(p.drop_last() == mailboxes@.take(i as int));
            assert(p.last() == mailboxes@[i as int]);
            if i == 0 {
                assert(p[0] == mailboxes@[0]);
            }
        }
        let ghost before = s@;
        if i > 0 {
            push_str(&mut s, ", ");
        }
        push_str(&mut s, display_name(mailboxes[i].as_str()));
        proof {
            if i == 0 {
                assert(s@ =~= head + joined_names(mailboxes@.take(i + 1)));
            } else {
                assert(s@ =~= head + joined_names(mailboxes@.take(i + 1)));
            }
        }
        i += 1;
    }
    assert(mailboxes@.take(mailboxes@.len() as int) == mailboxes@);
    push_str(&mut s, " (");
    push_decimal(&mut s, mailboxes.len() as u64);
    push_str(&mut s, " in total)\n");
    push_str(&mut s, "\nRun `br1ef fetch`, then `br1ef digest` when ready.\n");
    assert(s@ =~= summary_text(*cfg, mailboxes@));
    s
}

} // verus!

verus! {

/// The question for setting `prompt`, showing its current value, or
/// "(none)" where it is empty.
pub open spec fn question(prompt: Seq<char>, current: Seq<char>) -> Seq<char> {
    prompt + " (current: "@ + (if current.len() == 0 {
        "(none)"@
    } else {
        current
    }) + ") : "@
}

/// The question for setting `prompt` (see `question`).
pub fn question_text(prompt: &str, current: &str) -> (r: String)
    ensures
        r@ == question(prompt@, current@),
{
    let mut s = prompt.to_owned();
    push_str(&mut s, " (current: ");
    if current.is_empty() {
        push_str(&mut s, "(none)");
    } else {
        push_str(&mut s, current);
    }
    push_str(&mut s, ") : ");
    s
}

} // verus!

verus! {

proof fn lemma_picked_mailboxes(parts: Seq<Seq<char>>, mailboxes: Seq<String>)
    ensures
        picked_mailboxes(parts, mailboxes).len() > 0,
        picked_mailboxes(parts, mailboxes)[0] == "INBOX"@,
        picked_mailboxes(parts, mailboxes).no_duplicates(),
    decreases parts.len(),
{
    if parts.len() > 0 {
        lemma_picked_mailboxes(parts.drop_last(), mailboxes);
        let prev = picked_mailboxes(parts.drop_last(), mailboxes);
        match picked_number(parts.last(), mailboxes.len()) {
            Some(k) => {
                let x = mailboxes[k - 1]@;
                if !prev.contains(x) {
                    let q = prev.push(x);
                    assert(q[0] == prev[0]);
                    assert forall|i: int, j: int| 0 <= i < q.len() && 0 <= j < q.len() && i != j implies q[i] != q[j] by {
                        if i < prev.len() && j < prev.len() {
                            assert(q[i] == prev[i] && q[j] == prev[j]);
                        } else if i < prev.len() {
                            assert(q[i] == prev[i]);
                        } else {
                            assert(q[j] == prev[j]);
                        }
                    }
                }
            },
            None => {},
        }
    } else {
        reveal_strlit("INBOX");
    }
}

/// Law: every answer to the mailbox menu selects "INBOX" first, and a
/// numbered answer selects no mailbox twice.
pub proof fn selection_keeps_inbox_first(input: Seq<char>, mailboxes: Seq<String>)
    ensures
        selected_mailboxes(input, mailboxes).len() > 0,
        selected_mailboxes(input, mailboxes)[0] == "INBOX"@,
        trim(input).len() > 0 && !answers_all(input) ==> selected_mailboxes(
            input,
            mailboxes,
        ).no_duplicates(),
{
    lemma_picked_mailboxes(comma_parts(input), mailboxes);
}

} // verus!
