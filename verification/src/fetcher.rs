//! Where mail comes from: the `Fetcher` interface, the IMAP connection
//! settings, and the decisions around listing and searching mailboxes.
use vstd::prelude::*;
use crate::cli::category_prefix;
use crate::text::{decimal, push_decimal, push_str, same_text, starts_with, starts_with_exec};
use crate::clock::{imap_date, imap_date_of, now_utc};
use crate::email::{body_of, extract_body, find_header, header_value, parse_message, parsed_message, MailPart};
use crate::{Item, Source};
use vstd::string::StrSliceExecFns;

verus! {

/// Something that can list mailboxes and fetch the recent items of one.
/// Errors are reported as messages.
pub trait Fetcher {
    /// The fetcher may give the answer `r` (the items, or an error message)
    /// when asked for the recent items of `mailbox`. A fetcher kept outside
    /// the verified library cannot define it; for it any answer is allowed.
    closed spec fn yields(&self, mailbox: Seq<char>, r: Result<Seq<Item>, Seq<char>>) -> bool {
        true
    }

    /// The recent items of `mailbox`.
    fn fetch_mailbox(&self, mailbox: &str) -> (r: Result<Vec<Item>, String>)
        ensures
            self.yields(mailbox@, items_result(r)),
    ;

    /// The fetcher may give the answer `r` (the mailbox names, or an error
    /// message) when asked to list its mailboxes. A fetcher kept outside the
    /// verified library cannot define it; for it any answer is allowed.
    closed spec fn lists(&self, r: Result<Seq<String>, Seq<char>>) -> bool {
        true
    }

    /// The names of all mailboxes.
    fn list_mailboxes(&self) -> (r: Result<Vec<String>, String>)
        ensures
            self.lists(strings_result(r)),
    ;

    /// The mailboxes to fetch when none were chosen: "INBOX" followed by the
    /// Gmail categories among the mailboxes that a listing gave (see
    /// `is_suggestion`); an error where the listing failed.
    fn suggested_mailboxes(&self) -> (r: Result<Vec<String>, String>)
        ensures
            match r {
                Ok(v) => exists|all: Seq<String>| #[trigger] self.lists(Ok(all)) && is_suggestion(
                    v@,
                    all,
                ),
                Err(e) => self.lists(Err(e@)),
            },
    {
        match self.list_mailboxes() {
            Ok(all) => {
                let v = suggested_from_listing(all.as_slice());
                assert(self.lists(Ok(all@)) && is_suggestion(v@, all@));
                Ok(v)
            },
            Err(e) => Err(e),
        }
    }
}

/// A result of mailbox names, as plain values.
pub open spec fn strings_result(r: Result<Vec<String>, String>) -> Result<Seq<String>, Seq<char>> {
    match r {
        Ok(v) => Ok(v@),
        Err(e) => Err(e@),
    }
}

/// `v` is what is suggested from the listing `all`: "INBOX" followed by the
/// Gmail categories of `all`, in order.
pub open spec fn is_suggestion(v: Seq<String>, all: Seq<String>) -> bool {
    &&& v.len() == categories_of(all).len() + 1
    &&& v[0]@ == inbox()
    &&& v.skip(1) == categories_of(all)
}

/// A result of items, as plain values.
pub open spec fn items_result(r: Result<Vec<Item>, String>) -> Result<Seq<Item>, Seq<char>> {
    match r {
        Ok(v) => Ok(v@),
        Err(e) => Err(e@),
    }
}

/// Each outcome `outcomes[k]` is what `f` may give for `mailboxes[k]`: its
/// items, or (for `None`) an error.
pub open spec fn fetched_as<F: Fetcher>(f: &F, mailboxes: Seq<String>, outcomes: Seq<Option<Seq<Item>>>) -> bool {
    forall|k: int|
        0 <= k < mailboxes.len() && k < outcomes.len() ==> match #[trigger] outcomes[k] {
            Some(b) => f.yields(mailboxes[k]@, Ok(b)),
            None => exists|e: Seq<char>| f.yields(mailboxes[k]@, Err(e)),
        }
}

/// How to reach an IMAP server.
pub struct ImapFetcher {
    host: String,
    port: u16,
    username: String,
    password: String,
}

impl ImapFetcher {
    /// The server's host name.
    pub closed spec fn host_view(&self) -> Seq<char> {
        self.host@
    }

    /// The server's port.
    pub closed spec fn port_view(&self) -> u16 {
        self.port
    }

    /// The user name to log in with.
    pub closed spec fn username_view(&self) -> Seq<char> {
        self.username@
    }

    /// The password to log in with.
    pub closed spec fn password_view(&self) -> Seq<char> {
        self.password@
    }

    /// Settings for the server at `host`:`port`, logging in as `username`.
    pub fn new(host: &str, port: u16, username: &str, password: &str) -> (f: Self)
        ensures
            f.host_view() == host@,
            f.port_view() == port,
            f.username_view() == username@,
            f.password_view() == password@,
    {
        Self {
            host: host.to_owned(),
            port,
            username: username.to_owned(),
            password: password.to_owned(),
        }
    }

    /// The server's host name.
    pub fn host(&self) -> (r: &String)
        ensures
            r@ == self.host_view(),
    {
        &self.host
    }

    /// The server's port.
    pub fn port(&self) -> (r: u16)
        ensures
            r == self.port_view(),
    {
        self.port
    }

    /// The user name to log in with.
    pub fn username(&self) -> (r: &String)
        ensures
            r@ == self.username_view(),
    {
        &self.username
    }

    /// The password to log in with.
    pub fn password(&self) -> (r: &String)
        ensures
            r@ == self.password_view(),
    {
        &self.password
    }
}

/// The mailbox every fetch includes.
pub open spec fn inbox() -> Seq<char> {
    "INBOX"@
}

/// The Gmail categories of `all`, in order.
pub open spec fn categories_of(all: Seq<String>) -> Seq<String>
    decreases all.len(),
{
    if all.len() == 0 {
        Seq::empty()
    } else if starts_with(all.last()@, category_prefix()) {
        categories_of(all.drop_last()).push(all.last())
    } else {
        categories_of(all.drop_last())
    }
}

/// The mailboxes of `all` that are Gmail categories, in order.
pub fn categories(all: &[String]) -> (r: Vec<String>)
    ensures
        r@ == categories_of(all@),
{
    let mut r: Vec<String> = Vec::new();
    let mut i: usize = 0;
    while i < all.len()
        invariant
            i <= all.len(),
            r@ == categories_of(all@.take(i as int)),
        decreases all.len() - i,
    {
        proof {
            let p = all@.take(i + 1);
            assert(p.drop_last() == all@.take(i as int));
            assert(p.last() == all@[i as int]);
        }
        if starts_with_exec(all[i].as_str(), "@@CATEGORY@@/") {
            r.push(all[i].clone());
        }
        i += 1;
    }
    assert(all@.take(all@.len() as int) == all@);
    r
}

/// The mailboxes an IMAP account suggests when none were chosen: "INBOX"
/// followed by the Gmail categories among the listed mailboxes.
pub fn suggested_from_listing(all: &[String]) -> (r: Vec<String>)
    ensures
        r@.len() == categories_of(all@).len() + 1,
        r@[0]@ == inbox(),
        r@.skip(1) == categories_of(all@),
{
    let mut r = categories(all);
    r.insert(0, "INBOX".to_owned());
    assert(r@.skip(1) =~= categories_of(all@));
    r
}

/// The namespace that holds Gmail's folders; it cannot be selected itself.
pub open spec fn gmail_namespace() -> Seq<char> {
    "[Gmail]"@
}

/// The names of `names` other than the bare Gmail namespace, in order.
pub open spec fn without_namespace(names: Seq<String>) -> Seq<String>
    decreases names.len(),
{
    if names.len() == 0 {
        Seq::empty()
    } else if names.last()@ == gmail_namespace() {
        without_namespace(names.drop_last())
    } else {
        without_namespace(names.drop_last()).push(names.last())
    }
}

/// The four Gmail categories, as mailbox names.
pub open spec fn gmail_categories() -> Seq<Seq<char>> {
    seq![
        "@@CATEGORY@@/Social"@,
        "@@CATEGORY@@/Updates"@,
        "@@CATEGORY@@/Promotions"@,
        "@@CATEGORY@@/Forums"@,
    ]
}

/// Some name of `names` lies inside the Gmail namespace.
pub open spec fn is_gmail(names: Seq<String>) -> bool {
    exists|i: int| 0 <= i < names.len() && starts_with((#[trigger] names[i])@, gmail_namespace())
}

/// The mailboxes an account offers, from the names the server lists: the bare
/// Gmail namespace is dropped, and for a Gmail account the four categories
/// are added at the end.
pub fn arrange_mailbox_names(names: &[String]) -> (r: Vec<String>)
    ensures
        is_gmail(without_namespace(names@)) ==> r@.len() == without_namespace(names@).len() + 4
            && r@.take(without_namespace(names@).len() as int) == without_namespace(names@)
            && forall|k: int| 0 <= k < 4 ==> r@[without_namespace(names@).len() + k]@
            == #[trigger] gmail_categories()[k],
        !is_gmail(without_namespace(names@)) ==> r@ == without_namespace(names@),
{
    let mut kept: Vec<String> = Vec::new();
    let mut gmail = false;
    let mut i: usize = 0;
    while i < names.len()
        invariant
            i <= names.len(),
            kept@ == without_namespace(names@.take(i as int)),
            gmail == is_gmail(kept@),
        decreases names.len() - i,
    {
        proof {
            let p = names@.take(i + 1);
            assert(p.drop_last() == names@.take(i as int));
            assert(p.last() == names@[i as int]);
        }
        if !same_text(names[i].as_str(), "[Gmail]") {
            let ghost before = kept@;
            let inside = starts_with_exec(names[i].as_str(), "[Gmail]");
            kept.push(names[i].clone());
            proof {
                if inside {
                    assert(starts_with(kept@[before.len() as int]@, gmail_namespace()));
                }
                if gmail {
                    let w = choose|w: int| 0 <= w < before.len() && starts_with((#[trigger] before[w])@, gmail_namespace());
                    assert(kept@[w] == before[w]);
                }
                if !gmail && !inside {
                    assert forall|w: int| 0 <= w < kept@.len() implies !starts_with((#[trigger] kept@[w])@, gmail_namespace()) by {
                        if w < before.len() {
                            assert(kept@[w] == before[w]);
                        }
                    }
                }
            }
            gmail = gmail || inside;
        }
        i += 1;
    }
    assert(names@.take(names@.len() as int) == names@);
    if gmail {
        let ghost base = kept@;
        kept.push("@@CATEGORY@@/Social".to_owned());
        kept.push("@@CATEGORY@@/Updates".to_owned());
        kept.push("@@CATEGORY@@/Promotions".to_owned());
        kept.push("@@CATEGORY@@/Forums".to_owned());
        assert(kept@.take(base.len() as int) =~= base);
    }
    kept
}

} // verus!

verus! {

/// What std's `str::to_uppercase` gives for `s`.
pub uninterp spec fn uppercase(s: Seq<char>) -> Seq<char>;

/// `s` in upper case, by std's `str::to_uppercase`. Claimed: the result is a
/// function of `s` alone (`uppercase`); Unicode's case mapping is not written
/// out.
#[verifier::external_body]
fn to_uppercase(s: &str) -> (r: String)
    ensures
        r@ == uppercase(s@),
{
    s.to_uppercase()
}

/// The IMAP search criteria for the mail of `mailbox` since the date `since`:
/// a Gmail category is searched by its label in all mail, any other mailbox
/// by date alone.
pub open spec fn search_filter(mailbox: Seq<char>, since: Seq<char>) -> Seq<char> {
    if starts_with(mailbox, category_prefix()) {
        "X-GM-LABELS \"CATEGORY_"@ + uppercase(mailbox.skip(category_prefix().len() as int))
            + "\" SINCE "@ + since
    } else {
        "SINCE "@ + since
    }
}

/// The mailbox to select to search `mailbox`: Gmail's "All Mail" for a
/// category, else the mailbox itself.
pub open spec fn search_mailbox(mailbox: Seq<char>) -> Seq<char> {
    if starts_with(mailbox, category_prefix()) {
        "[Gmail]/All Mail"@
    } else {
        mailbox
    }
}

/// The search criteria and the mailbox to select for the mail of `mailbox`
/// since the date `since` (see `search_filter` and `search_mailbox`).
pub fn search_plan(mailbox: &str, since: &str) -> (r: (String, String))
    ensures
        r.0@ == search_filter(mailbox@, since@),
        r.1@ == search_mailbox(mailbox@),
{
    proof {
        reveal_strlit("@@CATEGORY@@/");
    }
    if starts_with_exec(mailbox, "@@CATEGORY@@/") {
        let n = mailbox.unicode_len();
        let category = mailbox.substring_char(13, n);
        let label = to_uppercase(category);
        let mut filter = "X-GM-LABELS \"CATEGORY_".to_owned();
        push_str(&mut filter, label.as_str());
        push_str(&mut filter, "\" SINCE ");
        push_str(&mut filter, since);
        (filter, "[Gmail]/All Mail".to_owned())
    } else {
        let mut filter = "SINCE ".to_owned();
        push_str(&mut filter, since);
        (filter, mailbox.to_owned())
    }
}

/// Seconds in the week of mail a fetch looks back over.
pub open spec fn week_seconds() -> int {
    604800
}

/// The moment one week before `now` (seconds since the epoch).
pub fn week_before(now: i64) -> (r: i64)
    requires
        now >= i64::MIN + week_seconds(),
    ensures
        r == now - week_seconds(),
{
    now - 604800
}

/// The date, as IMAP searches write it, one week before the moment `now`;
/// `None` where no moment lies a week before `now` in an `i64`, or chrono
/// cannot write the date.
pub open spec fn week_ago_date(now: i64) -> Option<Seq<char>> {
    if now >= i64::MIN + week_seconds() {
        imap_date_of((now - week_seconds()) as i64)
    } else {
        None
    }
}

/// The plan `r` is the search plan for the last week of mail of `mailbox`
/// as of the moment `now`: refused where the date cannot be written (see
/// `week_ago_date`), else the criteria and mailbox of `search_plan`.
pub open spec fn is_plan_at(r: Result<(String, String), String>, mailbox: Seq<char>, now: i64) -> bool {
    match week_ago_date(now) {
        Some(since) => r matches Ok(p) && p.0@ == search_filter(mailbox, since) && p.1@
            == search_mailbox(mailbox),
        None => r is Err,
    }
}

/// The search criteria and mailbox for the last week of mail of `mailbox`
/// as of the moment `now` (see `is_plan_at`).
pub fn plan_search_at(mailbox: &str, now: i64) -> (r: Result<(String, String), String>)
    ensures
        is_plan_at(r, mailbox@, now),
{
    if now < i64::MIN + 604800 {
        return Err("the clock is out of range".to_owned());
    }
    match imap_date(week_before(now)) {
        Some(since) => Ok(search_plan(mailbox, since.as_str())),
        None => Err("the search date is out of range".to_owned()),
    }
}

/// The search criteria and mailbox for the last week of mail of `mailbox`,
/// counted back from the clock (see `plan_search_at`): the plan as of the
/// moment the clock gave.
pub fn plan_recent_search(mailbox: &str) -> (r: Result<(String, String), String>)
    ensures
        exists|now: i64| is_plan_at(r, mailbox@, now),
{
    let now = now_utc().secs;
    plan_search_at(mailbox, now)
}

/// The uids `uids` written as an IMAP sequence set: in decimal, separated by
/// commas.
pub open spec fn uid_list(uids: Seq<u32>) -> Seq<char>
    decreases uids.len(),
{
    if uids.len() == 0 {
        Seq::empty()
    } else if uids.len() == 1 {
        decimal(uids[0] as nat)
    } else {
        uid_list(uids.drop_last()) + ","@ + decimal(uids.last() as nat)
    }
}

/// The uids `uids` as an IMAP sequence set (see `uid_list`).
pub fn uid_set(uids: &[u32]) -> (r: String)
    ensures
        r@ == uid_list(uids@),
{
    let mut s = String::new();
    let mut i: usize = 0;
    while i < uids.len()
        invariant
            i <= uids.len(),
            s@ == uid_list(uids@.take(i as int)),
        decreases uids.len() - i,
    {
        proof {
            let p = uids@.take(i + 1);
            assert(p.drop_last() == uids@.take(i as int));
            assert(p.last() == uids@[i as int]);
            if i == 0 {
                assert(p[0] == uids@[0]);
            }
        }
        if i > 0 {
            push_str(&mut s, ",");
        }
        push_decimal(&mut s, uids[i] as u64);
        i += 1;
    }
    assert(uids@.take(uids@.len() as int) == uids@);
    s
}

} // verus!

verus! {

/// A message as the server hands it over: its uid, where the server gave
/// one, and its raw RFC 822 text, where it gave that.
pub struct FetchedMessage {
    pub uid: Option<u32>,
    pub body: Option<Vec<u8>>,
}

/// The id given to a message without a Message-ID header: the mailbox it
/// was read from, a slash, and its uid (0 where it has none).
pub open spec fn fallback_id(mailbox: Seq<char>, uid: Option<u32>) -> Seq<char> {
    mailbox + "/"@ + decimal(
        match uid {
            Some(u) => u as nat,
            None => 0nat,
        },
    )
}

/// The id of a message: its Message-ID header, else its fallback id.
pub open spec fn message_id_of(p: MailPart, uid: Option<u32>, mailbox: Seq<char>) -> Seq<char> {
    match header_value(p.headers@, "Message-ID"@) {
        Some(v) => v,
        None => match header_value(p.headers@, "Message-Id"@) {
            Some(v) => v,
            None => fallback_id(mailbox, uid),
        },
    }
}

/// The value of header `name` of `p`, or nothing where it has none.
pub open spec fn header_or_empty(p: MailPart, name: Seq<char>) -> Seq<char> {
    match header_value(p.headers@, name) {
        Some(v) => v,
        None => Seq::empty(),
    }
}

/// `it` is the item for the parsed message `p` with uid `uid`, read from the
/// mailbox `mailbox`: its id, subject, sender and readable body, from the
/// IMAP source, not yet placed in a mailbox and not urgent.
pub open spec fn is_message_item(it: Item, p: MailPart, uid: Option<u32>, mailbox: Seq<char>) -> bool {
    &&& it.id@ == message_id_of(p, uid, mailbox)
    &&& it.title@ == header_or_empty(p, "Subject"@)
    &&& it.from@ == header_or_empty(p, "From"@)
    &&& it.body@ == body_of(p)
    &&& it.source@ == "imap"@
    &&& it.mailbox@.len() == 0
    &&& !it.urgent
}

fn header_or_blank(p: &MailPart, name: &str) -> (r: String)
    ensures
        r@ == header_or_empty(*p, name@),
{
    match find_header(p, name) {
        Some(v) => v,
        None => String::new(),
    }
}

/// The item for the parsed message `p` (see `is_message_item`).
pub fn item_from_part(p: &MailPart, uid: Option<u32>, mailbox: &str) -> (it: Item)
    ensures
        is_message_item(it, *p, uid, mailbox@),
{
    let id = match find_header(p, "Message-ID") {
        Some(v) => v,
        None => match find_header(p, "Message-Id") {
            Some(v) => v,
            None => {
                let mut s = mailbox.to_owned();
                push_str(&mut s, "/");
                let n: u32 = match uid {
                    Some(u) => u,
                    None => 0,
                };
                push_decimal(&mut s, n as u64);
                s
            },
        },
    };
    Item {
        id,
        title: header_or_blank(p, "Subject"),
        from: header_or_blank(p, "From"),
        body: extract_body(p),
        source: Source::Imap.as_str().to_owned(),
        mailbox: String::new(),
        urgent: false,
    }
}

/// The messages of `msgs` that have a text that mailparse accepts, each parsed,
/// with its uid, in order.
pub open spec fn parsed_messages(msgs: Seq<FetchedMessage>) -> Seq<(MailPart, Option<u32>)>
    decreases msgs.len(),
{
    if msgs.len() == 0 {
        Seq::empty()
    } else {
        let rest = parsed_messages(msgs.drop_last());
        match msgs.last().body {
            Some(b) => match parsed_message(b@) {
                Some(p) => rest.push((p, msgs.last().uid)),
                None => rest,
            },
            None => rest,
        }
    }
}

/// The items for the messages `msgs` read from the mailbox `mailbox`: one for
/// each message with a text that parses (see `parsed_messages` and
/// `is_message_item`), in order; the others are passed over.
pub fn items_from_messages(msgs: &[FetchedMessage], mailbox: &str) -> (r: Vec<Item>)
    ensures
        r@.len() == parsed_messages(msgs@).len(),
        forall|i: int|
            0 <= i < r@.len() ==> is_message_item(
                #[trigger] r@[i],
                parsed_messages(msgs@)[i].0,
                parsed_messages(msgs@)[i].1,
                mailbox@,
            ),
{
    let mut r: Vec<Item> = Vec::new();
    let mut i: usize = 0;
    while i < msgs.len()
        invariant
            i <= msgs.len(),
            r@.len() == parsed_messages(msgs@.take(i as int)).len(),
            forall|k: int|
                0 <= k < r@.len() ==> is_message_item(
                    #[trigger] r@[k],
                    parsed_messages(msgs@.take(i as int))[k].0,
                    parsed_messages(msgs@.take(i as int))[k].1,
                    mailbox@,
                ),
        decreases msgs.len() - i,
    {
        proof {
            let p = msgs@.take(i + 1);
            assert(p.drop_last() == msgs@.take(i as int));
            assert(p.last() == msgs@[i as int]);
        }
        let ghost before = parsed_messages(msgs@.take(i as int));
        match &msgs[i].body {
            Some(raw) => {
                match parse_message(raw.as_slice()) {
                    Some(part) => {
                        let it = item_from_part(&part, msgs[i].uid, mailbox);
                        r.push(it);
                        proof {
                            let after = parsed_messages(msgs@.take(i + 1));
                            assert(after == before.push((part, msgs@[i as int].uid)));
                            assert forall|k: int| 0 <= k < r@.len() implies is_message_item(
                                #[trigger] r@[k],
                                after[k].0,
                                after[k].1,
                                mailbox@,
                            ) by {
                                if k < r@.len() - 1 {
                                    assert(after[k] == before[k]);
                                }
                            }
                        }
                    },
                    None => {},
                }
            },
            None => {},
        }
        i += 1;
    }
    assert(msgs@.take(msgs@.len() as int) == msgs@);
    r
}

} // verus!
