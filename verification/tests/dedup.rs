use br1ef::dedup::{dedup_threads, normalize_subject};
use br1ef::Item;

#[test]
fn dedup_normalize_clean_subject() {
    assert_eq!(normalize_subject("Hello world"), "Hello world");
}

#[test]
fn dedup_normalize_re_prefix() {
    assert_eq!(normalize_subject("Re: hello"), "hello");
}

#[test]
fn dedup_normalize_re_uppercase() {
    assert_eq!(normalize_subject("RE: hello"), "hello");
}

#[test]
fn dedup_normalize_re_lowercase() {
    assert_eq!(normalize_subject("re: hello"), "hello");
}

#[test]
fn dedup_normalize_fwd_prefix() {
    assert_eq!(normalize_subject("FWD: hello"), "hello");
}

#[test]
fn dedup_normalize_aw_prefix() {
    assert_eq!(normalize_subject("AW: hello"), "hello");
}

#[test]
fn dedup_normalize_nested_re() {
    assert_eq!(normalize_subject("Re: Re: hello"), "hello");
}

#[test]
fn dedup_normalize_does_not_strip_without_space_or_bracket() {
    assert_eq!(normalize_subject("Re:foo"), "Re:foo");
}

#[test]
fn dedup_normalize_strips_with_bracket() {
    assert_eq!(normalize_subject("Re:[PATCH] foo"), "[PATCH] foo");
}

#[test]
fn dedup_normalize_empty_subject() {
    assert_eq!(normalize_subject(""), "");
}

#[test]
fn dedup_normalize_only_prefix() {
    assert_eq!(normalize_subject("Re:"), "Re:");
}

#[test]
fn dedup_normalize_whitespace_only() {
    assert_eq!(normalize_subject("   "), "");
}

#[test]
fn dedup_dedup_single_item() {
    let items = vec![Item {
        id: "1".into(),
        title: "Hello".into(),
        from: "alice@example.com".into(),
        body: "body".into(),
        source: "imap".into(),
        mailbox: String::new(),
        urgent: false,
    }];
    assert_eq!(dedup_threads(items).len(), 1);
}

#[test]
fn dedup_dedup_collapses_thread_to_newest() {
    let items = vec![
        Item {
            id: "1".into(),
            title: "Re: Hello".into(),
            from: "alice@example.com".into(),
            body: "old reply".into(),
            source: "imap".into(),
            mailbox: String::new(),
            urgent: false,
        },
        Item {
            id: "2".into(),
            title: "Re: Hello".into(),
            from: "alice@example.com".into(),
            body: "newest reply".into(),
            source: "imap".into(),
            mailbox: String::new(),
            urgent: false,
        },
    ];
    let result = dedup_threads(items);
    assert_eq!(result.len(), 1);
    assert_eq!(result[0].id, "2");
    assert_eq!(result[0].body, "newest reply");
}

#[test]
fn dedup_dedup_keeps_different_senders() {
    let items = vec![
        Item {
            id: "1".into(),
            title: "Hello".into(),
            from: "alice@example.com".into(),
            body: "alice says".into(),
            source: "imap".into(),
            mailbox: String::new(),
            urgent: false,
        },
        Item {
            id: "2".into(),
            title: "Hello".into(),
            from: "bob@example.com".into(),
            body: "bob says".into(),
            source: "imap".into(),
            mailbox: String::new(),
            urgent: false,
        },
    ];
    assert_eq!(dedup_threads(items).len(), 2);
}

#[test]
fn dedup_dedup_preserves_order() {
    let items = vec![
        Item {
            id: "1".into(),
            title: "Meeting".into(),
            from: "alice@example.com".into(),
            body: "body".into(),
            source: "imap".into(),
            mailbox: String::new(),
            urgent: false,
        },
        Item {
            id: "2".into(),
            title: "Lunch".into(),
            from: "alice@example.com".into(),
            body: "body".into(),
            source: "imap".into(),
            mailbox: String::new(),
            urgent: false,
        },
        Item {
            id: "3".into(),
            title: "Re: Meeting".into(),
            from: "alice@example.com".into(),
            body: "reply".into(),
            source: "imap".into(),
            mailbox: String::new(),
            urgent: false,
        },
    ];
    let result = dedup_threads(items);
    assert_eq!(result.len(), 2);
    assert_eq!(result[0].id, "3");
    assert_eq!(result[1].id, "2");
}

#[test]
fn dedup_dedup_all_unique() {
    let items = vec![
        Item {
            id: "1".into(),
            title: "Meeting".into(),
            from: "alice@example.com".into(),
            body: "body".into(),
            source: "imap".into(),
            mailbox: String::new(),
            urgent: false,
        },
        Item {
            id: "2".into(),
            title: "Lunch".into(),
            from: "bob@example.com".into(),
            body: "body".into(),
            source: "imap".into(),
            mailbox: String::new(),
            urgent: false,
        },
    ];
    assert_eq!(dedup_threads(items).len(), 2);
}
