use br1ef::agent::{brief_from_reply, sort_model_names, tags_url, truncate, OllamaAgent};
use br1ef::cli::{
    choose_model, config_summary, display_name, mailbox_menu_line, model_menu_line, parse_port,
    prompt_value, question_text, select_mailboxes,
};
use br1ef::commands::{
    cmd_daily, confirms_deletion, count_items_text, daily_text, delete_question_text, fetch_text,
    list_items_text,
};
use br1ef::config::{config_entries, config_from_entries, AppConfig};
use br1ef::dedup::{dedup_threads, normalize_subject};
use br1ef::digest::{build_digest, count_bytes, count_words, digest_preview, digest_stats};
use br1ef::email::collapse_whitespace;
use br1ef::fetch::{FetchResult, MailboxStats};
use br1ef::fetcher::{
    arrange_mailbox_names, items_from_messages, plan_recent_search, plan_search_at, search_plan,
    suggested_from_listing, uid_set, week_before, FetchedMessage, ImapFetcher,
};
use br1ef::noise::filter_relevant;
use br1ef::service::get_daily_items;
use br1ef::storage::{
    digest_from_row, digest_rows, tally_by_source, total_count, InMemoryStorage, Storage,
};
use br1ef::{Digest, Item, Source, UtcTime};

fn item(id: &str, from: &str, title: &str, source: &str) -> Item {
    Item {
        id: id.into(),
        title: title.into(),
        from: from.into(),
        body: "body".into(),
        source: source.into(),
        mailbox: String::new(),
        urgent: false,
    }
}

fn strings(v: &[&str]) -> Vec<String> {
    v.iter().map(|s| s.to_string()).collect()
}

struct FixedAgent;

impl br1ef::agent::Agent for FixedAgent {
    fn summarize_items(&self, items: &[Item]) -> Result<String, String> {
        Ok(format!("{} item(s)", items.len()))
    }
}

// Laws, on concrete values.

#[test]
fn collapse_whitespace_twice_is_once() {
    let once = collapse_whitespace(" \t a \n\n b  c\u{3000}");
    assert_eq!(once, "a b c");
    assert_eq!(collapse_whitespace(&once), once);
}

#[test]
fn normalize_subject_twice_is_once() {
    let once = normalize_subject("  Re: FWD:  Re:[x] hi ");
    assert_eq!(once, "[x] hi");
    assert_eq!(normalize_subject(&once), once);
}

#[test]
fn dedup_threads_twice_is_once() {
    let items = vec![
        item("1", "a", "Hi", "imap"),
        item("2", "a", "Re: Hi", "imap"),
        item("3", "b", "Hi", "imap"),
    ];
    let once = dedup_threads(items);
    let ids: Vec<&str> = once.iter().map(|i| i.id.as_str()).collect();
    assert_eq!(ids, vec!["2", "3"]);
    assert_eq!(dedup_threads(once.clone()), once);
}

#[test]
fn filter_relevant_twice_is_once() {
    let items = vec![item("1", "noreply@x.com", "Hi", "imap"), item("2", "mom@x.com", "Hi", "imap")];
    let once = filter_relevant(&items);
    assert_eq!(once.len(), 1);
    assert_eq!(filter_relevant(&once), once);
}

#[test]
fn truncate_keeps_short_strings_and_cuts_long_ones_to_a_prefix() {
    assert_eq!(truncate("héllo", 6), "héllo");
    let t = truncate("héllo wörld", 4);
    assert_eq!(t, "hél");
    assert!("héllo wörld".starts_with(&t));
}

#[test]
fn stored_settings_read_back_unchanged() {
    let cfg = AppConfig {
        imap_host: "imap.test.com".into(),
        imap_port: 143,
        imap_username: "user@test.com".into(),
        imap_password: "p@ss".into(),
        ollama_base_url: "http://ollama:11434".into(),
        ollama_model: "llama3.2:3b".into(),
    };
    let back = config_from_entries(&config_entries(&cfg));
    assert_eq!(back.imap_host, "imap.test.com");
    assert_eq!(back.imap_port, 143);
    assert_eq!(back.imap_username, "user@test.com");
    assert_eq!(back.imap_password, "p@ss");
    assert_eq!(back.ollama_base_url, "http://ollama:11434");
    assert_eq!(back.ollama_model, "llama3.2:3b");
}

#[test]
fn source_tally_adds_up_to_the_items() {
    let items = vec![
        item("1", "a", "x", "social"),
        item("2", "a", "y", "forums"),
        item("3", "a", "z", "social"),
    ];
    let t = tally_by_source(&items);
    assert_eq!(t, vec![("forums".to_string(), 1), ("social".to_string(), 2)]);
    assert_eq!(total_count(&t), 3);
}

#[test]
fn digest_counts_add_up_to_total() {
    let items = vec![
        item("1", "a", "x", "imap"),
        item("2", "b", "y", "slack"),
        item("3", "c", "z", "imap"),
    ];
    let d = build_digest(items, &FixedAgent).unwrap();
    assert_eq!(d.total_items, 3);
    assert_eq!(d.by_source, vec![("imap".to_string(), 2), ("slack".to_string(), 1)]);
    assert_eq!(d.summary, "3 item(s)");
}

#[test]
fn digest_ranks_equal_counts_by_source() {
    let items = vec![item("1", "a", "x", "slack"), item("2", "b", "y", "imap")];
    let d = build_digest(items, &FixedAgent).unwrap();
    assert_eq!(d.by_source, vec![("imap".to_string(), 1), ("slack".to_string(), 1)]);
}

#[test]
fn selection_other_than_all_keeps_inbox_first() {
    let mbx = strings(&["INBOX", "Work", "@@CATEGORY@@/Social"]);
    assert_eq!(select_mailboxes("\n", &mbx), strings(&["INBOX", "@@CATEGORY@@/Social"]));
    assert_eq!(select_mailboxes("2, 2,x, 1,9,3\n", &mbx), strings(&["INBOX", "Work", "@@CATEGORY@@/Social"]));
    assert_eq!(select_mailboxes(" ALL\n", &mbx), mbx);
    assert_eq!(select_mailboxes(",", &mbx), strings(&["INBOX"]));
}

#[test]
fn stored_items_keep_first_copy_of_an_id() {
    let mut s = InMemoryStorage::new();
    s.store_items(&[item("1", "a", "first", "imap")]).unwrap();
    s.store_items(&[item("1", "a", "second", "imap"), item("2", "a", "other", "imap")]).unwrap();
    let titles: Vec<String> = s.get_items().unwrap().into_iter().map(|i| i.title).collect();
    assert_eq!(titles, strings(&["first", "other"]));
}

// Formulas and edge cases.

#[test]
fn display_name_strips_category_prefix_only() {
    assert_eq!(display_name("@@CATEGORY@@/Social"), "Social");
    assert_eq!(display_name("INBOX"), "INBOX");
    assert_eq!(display_name("x@@CATEGORY@@/Social"), "x@@CATEGORY@@/Social");
}

#[test]
fn prompt_value_keeps_current_on_blank() {
    assert_eq!(prompt_value("  \n", "old"), "old");
    assert_eq!(prompt_value(" new \n", "old"), "new");
}

#[test]
fn parse_port_accepts_only_nonzero_ports() {
    assert_eq!(parse_port(" 8080\n", 993), 8080);
    assert_eq!(parse_port("+143", 993), 143);
    assert_eq!(parse_port("0", 993), 993);
    assert_eq!(parse_port("65536", 993), 993);
    assert_eq!(parse_port("abc", 993), 993);
    assert_eq!(parse_port("", 993), 993);
}

#[test]
fn menu_lines_are_numbered_and_marked() {
    assert_eq!(mailbox_menu_line(0, "INBOX"), "   1. INBOX (default)");
    assert_eq!(mailbox_menu_line(11, "@@CATEGORY@@/Social"), "  12. Social (category)");
    assert_eq!(model_menu_line(2, "llama3.2:1b", "llama3.2:1b"), "   3. llama3.2:1b (current)");
    assert_eq!(model_menu_line(9, "qwen", "llama"), "  10. qwen");
}

#[test]
fn choose_model_picks_numbered_model_or_keeps_current() {
    let models = strings(&["a", "b"]);
    assert_eq!(choose_model("2\n", &models, "cur"), "b");
    assert_eq!(choose_model("3\n", &models, "cur"), "cur");
    assert_eq!(choose_model("0", &models, "cur"), "cur");
    assert_eq!(choose_model("\n", &models, "cur"), "cur");
}

#[test]
fn config_summary_shows_defaults_and_mailboxes() {
    let mut cfg = AppConfig::defaults();
    cfg.ollama_model = "llama3.2:1b".into();
    let text = config_summary(&cfg, &strings(&["INBOX", "@@CATEGORY@@/Social"]));
    assert_eq!(
        text,
        "\nStep 3/3 — Config Complete!\n  IMAP host:     imap.gmail.com\n  Ollama URL:    <default>\n  Ollama model:  <default>\n  Mailboxes:     INBOX, Social (2 in total)\n\nRun `br1ef fetch`, then `br1ef digest` when ready.\n"
    );
}

#[test]
fn question_shows_none_for_empty_current() {
    assert_eq!(question_text("IMAP server (hostname)", ""), "IMAP server (hostname) (current: (none)) : ");
    assert_eq!(question_text("Ollama model name", "m"), "Ollama model name (current: m) : ");
}

#[test]
fn defaults_and_completeness() {
    let cfg = AppConfig::default();
    assert_eq!(cfg.imap_host, "imap.gmail.com");
    assert_eq!(cfg.imap_port, 993);
    assert!(!cfg.is_complete());
    let full = AppConfig { imap_username: "u".into(), imap_password: "p".into(), ..AppConfig::defaults() };
    assert!(full.is_complete());
}

#[test]
fn settings_fall_back_to_defaults() {
    let back = config_from_entries(&[
        ("imap_host".to_string(), "imap.test.com".to_string()),
        ("imap_port".to_string(), "not a number".to_string()),
    ]);
    assert_eq!(back.imap_host, "imap.test.com");
    assert_eq!(back.imap_port, 993);
    assert_eq!(back.ollama_base_url, "http://localhost:11434");
    assert_eq!(back.ollama_model, "qwen2.5-coder:7b");
    let later = config_from_entries(&[
        ("imap_port".to_string(), "143".to_string()),
        ("imap_port".to_string(), "0".to_string()),
    ]);
    assert_eq!(later.imap_port, 0);
}

#[test]
fn search_plan_for_category_and_plain_mailbox() {
    let (filter, mailbox) = search_plan("@@CATEGORY@@/Social", "04-Mar-2025");
    assert_eq!(filter, "X-GM-LABELS \"CATEGORY_SOCIAL\" SINCE 04-Mar-2025");
    assert_eq!(mailbox, "[Gmail]/All Mail");
    let (filter, mailbox) = search_plan("Work", "04-Mar-2025");
    assert_eq!(filter, "SINCE 04-Mar-2025");
    assert_eq!(mailbox, "Work");
}

#[test]
fn recent_search_looks_back_from_today() {
    let (filter, mailbox) = plan_recent_search("INBOX").unwrap();
    assert!(filter.starts_with("SINCE "));
    assert_eq!(filter.len(), "SINCE 04-Mar-2025".len());
    assert_eq!(mailbox, "INBOX");
}

#[test]
fn week_before_subtracts_seven_days() {
    assert_eq!(week_before(1_000_000), 1_000_000 - 604_800);
}

#[test]
fn uid_set_joins_with_commas() {
    assert_eq!(uid_set(&[]), "");
    assert_eq!(uid_set(&[42]), "42");
    assert_eq!(uid_set(&[1, 20, 300]), "1,20,300");
}

#[test]
fn mailbox_listing_adds_gmail_categories() {
    let names = arrange_mailbox_names(&strings(&["INBOX", "[Gmail]", "[Gmail]/Sent Mail"]));
    assert_eq!(
        names,
        strings(&[
            "INBOX",
            "[Gmail]/Sent Mail",
            "@@CATEGORY@@/Social",
            "@@CATEGORY@@/Updates",
            "@@CATEGORY@@/Promotions",
            "@@CATEGORY@@/Forums",
        ])
    );
    assert_eq!(arrange_mailbox_names(&strings(&["INBOX", "Work"])), strings(&["INBOX", "Work"]));
    assert_eq!(suggested_from_listing(&names), strings(&[
        "INBOX",
        "@@CATEGORY@@/Social",
        "@@CATEGORY@@/Updates",
        "@@CATEGORY@@/Promotions",
        "@@CATEGORY@@/Forums",
    ]));
}

#[test]
fn message_without_id_gets_mailbox_and_uid() {
    let raw = b"From: a@b.c\r\nSubject: =?UTF-8?Q?Caf=C3=A9?=\r\n\r\nhi".to_vec();
    let msgs = vec![
        FetchedMessage { uid: Some(12), body: Some(raw.clone()) },
        FetchedMessage { uid: Some(13), body: None },
        FetchedMessage { uid: None, body: Some(raw) },
    ];
    let items = items_from_messages(&msgs, "[Gmail]/All Mail");
    assert_eq!(items.len(), 2);
    assert_eq!(items[0].id, "[Gmail]/All Mail/12");
    assert_eq!(items[0].title, "Café");
    assert_eq!(items[0].from, "a@b.c");
    assert_eq!(items[0].body, "hi");
    assert_eq!(items[0].source, Source::Imap.as_str());
    assert_eq!(items[0].mailbox, "");
    assert_eq!(items[1].id, "[Gmail]/All Mail/0");
}

#[test]
fn message_with_quoted_printable_body_is_decoded() {
    let raw = b"Message-ID: <m1@x>\r\nContent-Type: text/plain; charset=utf-8\r\nContent-Transfer-Encoding: quoted-printable\r\n\r\nna=C3=AFve";
    let items = items_from_messages(&[FetchedMessage { uid: Some(1), body: Some(raw.to_vec()) }], "INBOX");
    assert_eq!(items[0].id, "<m1@x>");
    assert_eq!(items[0].body, "naïve");
    assert_eq!(items[0].title, "");
}

#[test]
fn ollama_urls_and_reply() {
    let agent = OllamaAgent::new("http://localhost:11434//", "llama3.2:1b");
    assert_eq!(agent.base_url(), "http://localhost:11434");
    assert_eq!(agent.model(), "llama3.2:1b");
    assert_eq!(agent.generate_url(), "http://localhost:11434/api/generate");
    assert_eq!(tags_url("http://h:1/"), "http://h:1/api/tags");
    assert_eq!(brief_from_reply("\n  Brief text. \n"), "Brief text.");
}

#[test]
fn model_names_come_out_sorted() {
    let names = sort_model_names(strings(&["qwen2.5-coder:7b", "llama3.2:1b", "mistral:latest", "Zeta", "llama3.2:1b"]));
    assert_eq!(names, strings(&["Zeta", "llama3.2:1b", "llama3.2:1b", "mistral:latest", "qwen2.5-coder:7b"]));
    assert!(sort_model_names(vec![]).is_empty());
}

#[test]
fn word_and_byte_counts() {
    assert_eq!(count_words("  hello  wide\tworld\n"), 3);
    assert_eq!(count_words(""), 0);
    assert_eq!(count_bytes("aé🎉"), 7);
    let items = vec![
        Item { body: "one two".into(), ..item("1", "a", "x", "imap") },
        Item { body: "été".into(), ..item("2", "b", "y", "imap") },
    ];
    let st = digest_stats(&items);
    assert_eq!((st.items, st.bytes, st.words), (2, 12, 3));
}

#[test]
fn digest_preview_only_when_the_model_is_asked() {
    assert!(digest_preview(&[]).is_none());
    assert!(digest_preview(&[item("1", "noreply@x.com", "Hi", "imap")]).is_none());
    let items = vec![
        item("1", "noreply@x.com", "Hi", "imap"),
        item("2", "mom@x.com", "Hi", "imap"),
        item("3", "mom@x.com", "Re: Hi", "imap"),
    ];
    let st = digest_preview(&items).unwrap();
    assert_eq!((st.items, st.bytes, st.words), (1, 4, 1));
}

#[test]
fn count_report_totals_the_sources() {
    assert_eq!(count_items_text(&[]), "No items stored. Run `br1ef fetch` first.\n");
    assert_eq!(
        count_items_text(&[("a".to_string(), 2), ("b".to_string(), 5)]),
        "📦 Items by source:\n  a — 2\n  b — 5\n  ─────\n  Total: 7\n"
    );
}

#[test]
fn list_report_cuts_long_titles() {
    let title: String = "x".repeat(60);
    let it = Item { mailbox: "Work".into(), title: title.clone(), ..item("1", "bob", "", "imap") };
    assert_eq!(list_items_text(&[it]), format!("📦 Items:\nbob: Work\n  {}\n\n  ─────\n", "x".repeat(50)));
}

#[test]
fn daily_report_with_and_without_digest() {
    assert_eq!(daily_text(&None), "No digest. Run `br1ef fetch` then `br1ef digest` first.\n");
    let d = Digest {
        total_items: 3,
        by_source: vec![("imap".to_string(), 3)],
        summary: "line one\r\nline two".into(),
        generated_at: UtcTime { secs: 0, nanos: 0 },
    };
    let expected = format!(
        "☕ Your Brief — January 1, 1970\n{}\n📦 Total items: 3\n\n📬 By source:\n  imap: 3\n\n{}\nline one\nline two\n",
        "═".repeat(40),
        "─".repeat(40)
    );
    assert_eq!(daily_text(&Some(d)), expected);
}

#[test]
fn daily_command_reads_the_stored_digest() {
    let mut s = InMemoryStorage::new();
    assert_eq!(cmd_daily(&s).unwrap(), "No digest. Run `br1ef fetch` then `br1ef digest` first.\n");
    assert!(get_daily_items(&s).unwrap().is_none());
    let d = Digest { total_items: 0, by_source: vec![], summary: String::new(), generated_at: UtcTime { secs: 86_400 * 31, nanos: 0 } };
    s.store_digest(&d).unwrap();
    assert_eq!(get_daily_items(&s).unwrap(), Some(d));
    assert_eq!(
        cmd_daily(&s).unwrap(),
        format!("☕ Your Brief — February 1, 1970\n{}\n📦 Total items: 0\n\n📬 By source:\n\n", "═".repeat(40))
    );
}

#[test]
fn fetch_report_lists_mailboxes() {
    let r = FetchResult {
        items: vec![item("1", "a", "x", "imap")],
        per_mailbox: vec![
            MailboxStats { name: "INBOX".into(), total: 2, new: 1 },
            MailboxStats { name: "@@CATEGORY@@/Social".into(), total: 0, new: 0 },
        ],
    };
    assert_eq!(
        fetch_text(&r),
        "  ✅ INBOX — 1 new (2 total)\n  ✅ Social — 0 new (0 total)\n✨ Fetched 1 item(s).\n"
    );
}

#[test]
fn deletion_needs_a_yes() {
    assert!(confirms_deletion("y\n"));
    assert!(confirms_deletion(" Y "));
    assert!(!confirms_deletion("yes"));
    assert!(!confirms_deletion("\n"));
    assert_eq!(delete_question_text(12), "Delete 12 items? [y/N]");
}

#[test]
fn imap_fetcher_keeps_its_settings() {
    let f = ImapFetcher::new("imap.example.com", 993, "me", "secret");
    assert_eq!(f.host(), "imap.example.com");
    assert_eq!(f.port(), 993);
    assert_eq!(f.username(), "me");
    assert_eq!(f.password(), "secret");
}

#[test]
fn mailbox_counts_by_source_then_mailbox() {
    let mut s = InMemoryStorage::new();
    let placed = |id: &str, source: &str, mailbox: &str| Item { mailbox: mailbox.into(), ..item(id, "a", id, source) };
    s.store_items(&[
        placed("1", "slack", ""),
        placed("2", "imap", "Work"),
        placed("3", "imap", "INBOX"),
        placed("4", "imap", "INBOX"),
    ])
    .unwrap();
    assert_eq!(
        s.get_item_counts_by_mailbox().unwrap(),
        vec![
            ("imap".to_string(), "INBOX".to_string(), 2),
            ("imap".to_string(), "Work".to_string(), 1),
            ("slack".to_string(), String::new(), 1),
        ]
    );
    assert!(InMemoryStorage::new().get_item_counts_by_mailbox().unwrap().is_empty());
}

#[test]
fn stored_settings_and_mailboxes_read_back() {
    let mut s = InMemoryStorage::default();
    assert_eq!(s.get_app_config().unwrap().imap_port, 993);
    let cfg = AppConfig { imap_port: 143, ..AppConfig::defaults() };
    s.set_app_config(&cfg).unwrap();
    assert_eq!(s.get_app_config().unwrap().imap_port, 143);
    s.set_selected_mailboxes(&strings(&["INBOX", "Work"])).unwrap();
    assert_eq!(s.get_selected_mailboxes().unwrap(), strings(&["INBOX", "Work"]));
}

#[test]
fn search_plan_at_a_moment() {
    let (filter, mailbox) = plan_search_at("INBOX", 0).unwrap();
    assert_eq!(filter, "SINCE 25-Dec-1969");
    assert_eq!(mailbox, "INBOX");
    let (filter, _) = plan_search_at("@@CATEGORY@@/Forums", 604_800).unwrap();
    assert_eq!(filter, "X-GM-LABELS \"CATEGORY_FORUMS\" SINCE 01-Jan-1970");
    assert!(plan_search_at("INBOX", i64::MIN).is_err());
}

#[test]
fn all_mailboxes_keeps_inbox_first() {
    assert_eq!(select_mailboxes("all\n", &strings(&["Work"])), strings(&["INBOX", "Work"]));
    assert_eq!(select_mailboxes("All", &strings(&["Work", "INBOX", "Fun"])), strings(&["INBOX", "Work", "Fun"]));
}

#[test]
fn digest_rows_round_trip() {
    let d = Digest {
        total_items: 5,
        by_source: vec![("imap".to_string(), 4), ("slack".to_string(), 1)],
        summary: "brief".into(),
        generated_at: UtcTime { secs: 1_700_000_000, nanos: 250_000_000 },
    };
    let (total, summary, when, rows) = digest_rows(&d).unwrap();
    assert_eq!(total, 5);
    assert_eq!(summary, "brief");
    assert_eq!(when, "2023-11-14T22:13:20.250+00:00");
    assert_eq!(rows, vec![("imap".to_string(), 4), ("slack".to_string(), 1)]);
    let back = digest_from_row(total, summary, &when, rows).unwrap();
    assert_eq!(back, d);
    assert!(digest_from_row(1, String::new(), "yesterday", vec![]).is_err());
    assert!(digest_rows(&Digest { generated_at: UtcTime { secs: i64::MAX, nanos: 0 }, ..d.clone() }).is_err());
    let whole = Digest { generated_at: UtcTime { secs: -86_400, nanos: 7 }, ..d };
    let (t, s, w, r) = digest_rows(&whole).unwrap();
    assert_eq!(w, "1969-12-31T00:00:00.000000007+00:00");
    assert_eq!(digest_from_row(t, s, &w, r).unwrap(), whole);
}
