use br1ef::config::AppConfig;
use br1ef::configure::{config_start, configure, ConfigAction, ConfigEvent, ConfigState, ConfigStep};

fn ask(action: &ConfigAction) -> String {
    match action {
        ConfigAction::Ask(q) => q.clone(),
        _ => panic!("expected a question"),
    }
}

fn step(state: ConfigState, event: ConfigEvent) -> (ConfigState, ConfigAction) {
    configure(state, event)
}

fn answer(state: ConfigState, line: &str) -> (ConfigState, ConfigAction) {
    step(state, ConfigEvent::Answer(line.to_string()))
}

fn through_to_mailboxes() -> ConfigState {
    let (s, a) = step(config_start(), ConfigEvent::Begin);
    assert!(matches!(a, ConfigAction::Load));
    let (s, a) = step(s, ConfigEvent::Loaded(AppConfig::defaults()));
    assert_eq!(
        ask(&a),
        "Step 1/3 — Connection Settings\nIMAP server (hostname) (current: imap.gmail.com) : "
    );
    let (s, a) = answer(s, "imap.test.com\n");
    assert_eq!(ask(&a), "IMAP port (current: 993): ");
    let (s, a) = answer(s, "143\n");
    assert_eq!(ask(&a), "IMAP username / email (current: (none)) : ");
    let (s, a) = answer(s, "me@test.com\n");
    assert_eq!(ask(&a), "IMAP password: ");
    let (s, a) = answer(s, "secret\n");
    assert_eq!(ask(&a), "\nOllama base URL (current: http://localhost:11434) : ");
    let (s, a) = answer(s, "\n");
    match &a {
        ConfigAction::ListModels(u) => assert_eq!(u, "http://localhost:11434"),
        _ => panic!("expected a model listing"),
    }
    let (s, a) = step(s, ConfigEvent::Models(Ok(vec!["a:1b".to_string(), "b:7b".to_string()])));
    assert_eq!(
        ask(&a),
        "\nAvailable models:\n   1. a:1b\n   2. b:7b\nSelect model (number, or Enter for current): "
    );
    let (s, a) = answer(s, "2\n");
    assert!(matches!(a, ConfigAction::ListMailboxes));
    assert_eq!(s.cfg.imap_host, "imap.test.com");
    assert_eq!(s.cfg.imap_port, 143);
    assert_eq!(s.cfg.imap_username, "me@test.com");
    assert_eq!(s.cfg.imap_password, "secret");
    assert_eq!(s.cfg.ollama_model, "b:7b");
    s
}

#[test]
fn configure_walks_through_all_steps() {
    let s = through_to_mailboxes();
    let (s, a) = step(s, ConfigEvent::Mailboxes(Some(Ok(vec!["Work".to_string()]))));
    assert_eq!(
        ask(&a),
        "\nStep 2/3 — Mailbox Selection\n   1. Work\n\nINBOX always selected.\nChoose mailboxes (comma-separated numbers, 'all', or Enter for defaults): "
    );
    let (s, a) = answer(s, "all\n");
    match &a {
        ConfigAction::Save(note, cfg, sel) => {
            assert_eq!(note, "");
            assert_eq!(cfg.ollama_model, "b:7b");
            assert_eq!(sel, &vec!["INBOX".to_string(), "Work".to_string()]);
        }
        _ => panic!("expected a save"),
    }
    let (s, a) = step(s, ConfigEvent::Saved);
    assert!(matches!(a, ConfigAction::ReadSelection));
    let (s, a) = step(s, ConfigEvent::Selection(vec!["INBOX".to_string(), "Work".to_string()]));
    match &a {
        ConfigAction::Finish(text) => assert!(text.contains("  Mailboxes:     INBOX, Work (2 in total)\n")),
        _ => panic!("expected the summary"),
    }
    assert!(s.step == ConfigStep::Done);
}

#[test]
fn configure_defaults_to_inbox_without_mailboxes() {
    let s = through_to_mailboxes();
    let (_, a) = step(s, ConfigEvent::Mailboxes(None));
    match &a {
        ConfigAction::Save(note, _, sel) => {
            assert!(note.contains("Defaulting to INBOX."));
            assert_eq!(sel, &vec!["INBOX".to_string()]);
        }
        _ => panic!("expected a save"),
    }
}

#[test]
fn configure_gives_up_when_mailboxes_cannot_be_listed() {
    let s = through_to_mailboxes();
    let (s, a) = step(s, ConfigEvent::Mailboxes(Some(Err("timeout".to_string()))));
    match &a {
        ConfigAction::Fail(m) => assert!(m.ends_with("connection settings configured: timeout")),
        _ => panic!("expected a failure"),
    }
    assert!(s.step == ConfigStep::Done);
}

#[test]
fn configure_asks_for_a_model_name_when_none_are_listed() {
    let (s, _) = step(config_start(), ConfigEvent::Begin);
    let (s, _) = step(s, ConfigEvent::Loaded(AppConfig::defaults()));
    let (s, _) = answer(s, "\n");
    let (s, _) = answer(s, "\n");
    let (s, _) = answer(s, "\n");
    let (s, _) = answer(s, "\n");
    let (s, _) = answer(s, "\n");
    let (s, a) = step(s, ConfigEvent::Models(Err("down".to_string())));
    assert_eq!(ask(&a), "Ollama model name (current: qwen2.5-coder:7b) : ");
    let (s, a) = answer(s, "llama3.2:1b\n");
    assert!(matches!(a, ConfigAction::ListMailboxes));
    assert_eq!(s.cfg.ollama_model, "llama3.2:1b");
    let (_, a) = answer(s, "unexpected\n");
    assert!(matches!(a, ConfigAction::Nothing));
}
