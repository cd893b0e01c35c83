//! The `config` dialogue as a state machine: from the step reached and what
//! just happened (an answer typed, a listing made, settings saved) to the next
//! step and what to do next (ask, list, save, finish or give up).
use vstd::prelude::*;
use crate::cli::{
    answered_port, answered_value, chosen_model, choose_model, config_summary, mailbox_entry,
    mailbox_menu_line, model_entry, model_menu_line, parse_port, prompt_value, question,
    question_text, select_mailboxes, selected_mailboxes, summary_text, names,
};
use crate::config::AppConfig;
use crate::text::{decimal, push_decimal, push_str};

verus! {

/// Where the dialogue stands.
#[derive(Clone, Copy, PartialEq, Eq, Structural)]
pub enum ConfigStep {
    /// Nothing has happened yet.
    Start,
    /// Waiting for the stored settings.
    Loading,
    /// Waiting for the IMAP host.
    Host,
    /// Waiting for the IMAP port.
    Port,
    /// Waiting for the IMAP user name.
    User,
    /// Waiting for the IMAP password.
    Password,
    /// Waiting for the Ollama base URL.
    Url,
    /// Waiting for the list of models.
    Models,
    /// Waiting for a choice from the model menu.
    ModelMenu,
    /// Waiting for a model name.
    ModelName,
    /// Waiting for the list of mailboxes.
    Mailboxes,
    /// Waiting for a choice from the mailbox menu.
    MailboxMenu,
    /// Waiting for the settings and the chosen mailboxes to be saved.
    Saving,
    /// Waiting for the saved mailboxes to be read back.
    Reading,
    /// Finished, or given up.
    Done,
}

/// The dialogue's state: its step, the settings as answered so far, and the
/// models and mailboxes offered in the menus.
pub struct ConfigState {
    pub step: ConfigStep,
    pub cfg: AppConfig,
    pub models: Vec<String>,
    pub mailboxes: Vec<String>,
}

/// What happened.
pub enum ConfigEvent {
    /// The dialogue is begun.
    Begin,
    /// The stored settings were read.
    Loaded(AppConfig),
    /// A line was typed in answer.
    Answer(String),
    /// The models were listed, or listing them failed.
    Models(Result<Vec<String>, String>),
    /// The mailboxes were listed, or listing them failed; `None` where there
    /// is no mail server to ask.
    Mailboxes(Option<Result<Vec<String>, String>>),
    /// The settings and the chosen mailboxes were saved.
    Saved,
    /// The chosen mailboxes were read back from the store.
    Selection(Vec<String>),
}

/// What to do next.
pub enum ConfigAction {
    /// Read the stored settings.
    Load,
    /// Show the text (which ends with a question) and read a line.
    Ask(String),
    /// List the models of the Ollama server at this base URL.
    ListModels(String),
    /// List the mailboxes of the mail server.
    ListMailboxes,
    /// Show the note, then save the settings and the chosen mailboxes.
    Save(String, AppConfig, Vec<String>),
    /// Read the chosen mailboxes back from the store.
    ReadSelection,
    /// Show the closing summary; the dialogue is over.
    Finish(String),
    /// Give up with this message; nothing is saved.
    Fail(String),
    /// Nothing: the event does not fit the step.
    Nothing,
}

/// `a` and `b` agree on every setting but the one numbered `skip` (0 host,
/// 1 port, 2 user name, 3 password, 4 Ollama URL, 5 model).
pub open spec fn agree_except(a: AppConfig, b: AppConfig, skip: int) -> bool {
    &&& skip != 0 ==> a.imap_host@ == b.imap_host@
    &&& skip != 1 ==> a.imap_port == b.imap_port
    &&& skip != 2 ==> a.imap_username@ == b.imap_username@
    &&& skip != 3 ==> a.imap_password@ == b.imap_password@
    &&& skip != 4 ==> a.ollama_base_url@ == b.ollama_base_url@
    &&& skip != 5 ==> a.ollama_model@ == b.ollama_model@
}

/// The heading shown before the first question.
pub open spec fn connection_heading() -> Seq<char> {
    "Step 1/3 \u{2014} Connection Settings\n"@
}

/// The question for the port, showing the current one.
pub open spec fn port_question(port: u16) -> Seq<char> {
    "IMAP port (current: "@ + decimal(port as nat) + "): "@
}

/// The question for the password, offering to keep one that is set.
pub open spec fn password_question(current: Seq<char>) -> Seq<char> {
    "IMAP password"@ + (if current.len() > 0 {
        " (Enter to keep)"@
    } else {
        Seq::empty()
    }) + ": "@
}

/// The first `n` lines of the model menu for `models`, marking `current`.
pub open spec fn model_lines(models: Seq<String>, current: Seq<char>, n: nat) -> Seq<char>
    decreases n,
{
    if n == 0 {
        Seq::empty()
    } else {
        model_lines(models, current, (n - 1) as nat) + model_entry((n - 1) as nat, models[n - 1]@, current)
            + "\n"@
    }
}

/// The model menu for `models`, marking `current`, and its question.
pub open spec fn model_menu(models: Seq<String>, current: Seq<char>) -> Seq<char> {
    "\nAvailable models:\n"@ + model_lines(models, current, models.len()) + "Select model (number, or Enter for current): "@
}

/// The first `n` lines of the mailbox menu for `mailboxes`.
pub open spec fn menu_lines(mailboxes: Seq<String>, n: nat) -> Seq<char>
    decreases n,
{
    if n == 0 {
        Seq::empty()
    } else {
        menu_lines(mailboxes, (n - 1) as nat) + mailbox_entry((n - 1) as nat, mailboxes[n - 1]@) + "\n"@
    }
}

/// The heading of the mailbox step.
pub open spec fn mailbox_heading() -> Seq<char> {
    "\nStep 2/3 \u{2014} Mailbox Selection\n"@
}

/// The mailbox menu for `mailboxes` and its question.
pub open spec fn mailbox_menu(mailboxes: Seq<String>) -> Seq<char> {
    mailbox_heading() + menu_lines(mailboxes, mailboxes.len()) + "\nINBOX always selected.\n"@
        + "Choose mailboxes (comma-separated numbers, 'all', or Enter for defaults): "@
}

/// The note shown when no mailbox can be offered.
pub open spec fn no_mailboxes_note() -> Seq<char> {
    mailbox_heading() + "  (no mailboxes available \u{2014} connect to IMAP server to see mailbox list)\n"@
        + "  Defaulting to INBOX.\n"@
}

/// The message given when the mailboxes cannot be listed.
pub open spec fn no_connection(e: Seq<char>) -> Seq<char> {
    "Cannot connect to mail server \u{2014} can't select mailboxes without connection settings configured: "@
        + e
}

/// `t` is `s` with only its step changed, to `step`.
pub open spec fn moved(s: ConfigState, t: ConfigState, step: ConfigStep) -> bool {
    t == ConfigState { step, ..s }
}

/// `t` is `s` at step `step` with setting `field` changed (see
/// `agree_except`) and the menus kept.
pub open spec fn answered(s: ConfigState, t: ConfigState, step: ConfigStep, field: int) -> bool {
    &&& t.step == step
    &&& agree_except(t.cfg, s.cfg, field)
    &&& t.models == s.models
    &&& t.mailboxes == s.mailboxes
}

/// `a` asks the question `q` (see `ConfigAction::Ask`).
pub open spec fn asks(a: ConfigAction, q: Seq<char>) -> bool {
    match a {
        ConfigAction::Ask(x) => x@ == q,
        _ => false,
    }
}

/// `a` lists the models of the server at `url`.
pub open spec fn lists_models(a: ConfigAction, url: Seq<char>) -> bool {
    match a {
        ConfigAction::ListModels(x) => x@ == url,
        _ => false,
    }
}

/// `a` gives up with the message `msg`.
pub open spec fn fails_with(a: ConfigAction, msg: Seq<char>) -> bool {
    match a {
        ConfigAction::Fail(x) => x@ == msg,
        _ => false,
    }
}

/// `a` shows `note`, then saves the settings `cfg` and the mailboxes named
/// `sel`.
pub open spec fn saves(a: ConfigAction, note: Seq<char>, cfg: AppConfig, sel: Seq<Seq<char>>) -> bool {
    match a {
        ConfigAction::Save(n, c, v) => n@ == note && c == cfg && names(v@) == sel,
        _ => false,
    }
}

/// `a` shows the closing `text`.
pub open spec fn finishes(a: ConfigAction, text: Seq<char>) -> bool {
    match a {
        ConfigAction::Finish(x) => x@ == text,
        _ => false,
    }
}

/// One step of the dialogue: from state `s` and event `e` to state `t` and
/// action `a`. An event that does not fit the step leaves the state as it is
/// and asks for nothing.
pub open spec fn config_transition(s: ConfigState, e: ConfigEvent, t: ConfigState, a: ConfigAction) -> bool {
    let other = t == s && a is Nothing;
    match s.step {
        ConfigStep::Start => match e {
            ConfigEvent::Begin => moved(s, t, ConfigStep::Loading) && a is Load,
            _ => other,
        },
        ConfigStep::Loading => match e {
            ConfigEvent::Loaded(c) => {
                &&& t.step == ConfigStep::Host
                &&& t.cfg == c
                &&& t.models == s.models
                &&& t.mailboxes == s.mailboxes
                &&& asks(a, connection_heading() + question("IMAP server (hostname)"@, c.imap_host@))
            },
            _ => other,
        },
        ConfigStep::Host => match e {
            ConfigEvent::Answer(x) => {
                &&& answered(s, t, ConfigStep::Port, 0)
                &&& t.cfg.imap_host@ == answered_value(x@, s.cfg.imap_host@)
                &&& asks(a, port_question(s.cfg.imap_port))
            },
            _ => other,
        },
        ConfigStep::Port => match e {
            ConfigEvent::Answer(x) => {
                &&& answered(s, t, ConfigStep::User, 1)
                &&& t.cfg.imap_port == answered_port(x@, s.cfg.imap_port)
                &&& asks(a, question("IMAP username / email"@, s.cfg.imap_username@))
            },
            _ => other,
        },
        ConfigStep::User => match e {
            ConfigEvent::Answer(x) => {
                &&& answered(s, t, ConfigStep::Password, 2)
                &&& t.cfg.imap_username@ == answered_value(x@, s.cfg.imap_username@)
                &&& asks(a, password_question(s.cfg.imap_password@))
            },
            _ => other,
        },
        ConfigStep::Password => match e {
            ConfigEvent::Answer(x) => {
                &&& answered(s, t, ConfigStep::Url, 3)
                &&& t.cfg.imap_password@ == answered_value(x@, s.cfg.imap_password@)
                &&& asks(a, "\n"@ + question("Ollama base URL"@, s.cfg.ollama_base_url@))
            },
            _ => other,
        },
        ConfigStep::Url => match e {
            ConfigEvent::Answer(x) => {
                &&& answered(s, t, ConfigStep::Models, 4)
                &&& t.cfg.ollama_base_url@ == answered_value(x@, s.cfg.ollama_base_url@)
                &&& lists_models(a, t.cfg.ollama_base_url@)
            },
            _ => other,
        },
        ConfigStep::Models => match e {
            ConfigEvent::Models(m) => match m {
                Ok(v) if v@.len() > 0 => {
                    &&& t.step == ConfigStep::ModelMenu
                    &&& t.cfg == s.cfg
                    &&& t.models@ == v@
                    &&& t.mailboxes == s.mailboxes
                    &&& asks(a, model_menu(v@, s.cfg.ollama_model@))
                },
                _ => moved(s, t, ConfigStep::ModelName) && asks(
                    a,
                    question("Ollama model name"@, s.cfg.ollama_model@),
                ),
            },
            _ => other,
        },
        ConfigStep::ModelMenu => match e {
            ConfigEvent::Answer(x) => {
                &&& answered(s, t, ConfigStep::Mailboxes, 5)
                &&& t.cfg.ollama_model@ == chosen_model(x@, s.models@, s.cfg.ollama_model@)
                &&& a is ListMailboxes
            },
            _ => other,
        },
        ConfigStep::ModelName => match e {
            ConfigEvent::Answer(x) => {
                &&& answered(s, t, ConfigStep::Mailboxes, 5)
                &&& t.cfg.ollama_model@ == answered_value(x@, s.cfg.ollama_model@)
                &&& a is ListMailboxes
            },
            _ => other,
        },
        ConfigStep::Mailboxes => match e {
            ConfigEvent::Mailboxes(m) => match m {
                Some(Err(err)) => moved(s, t, ConfigStep::Done) && fails_with(a, no_connection(err@)),
                Some(Ok(v)) if v@.len() > 0 => {
                    &&& t.step == ConfigStep::MailboxMenu
                    &&& t.cfg == s.cfg
                    &&& t.models == s.models
                    &&& t.mailboxes@ == v@
                    &&& asks(a, mailbox_menu(v@))
                },
                _ => moved(s, t, ConfigStep::Saving) && saves(
                    a,
                    no_mailboxes_note(),
                    s.cfg,
                    seq!["INBOX"@],
                ),
            },
            _ => other,
        },
        ConfigStep::MailboxMenu => match e {
            ConfigEvent::Answer(x) => moved(s, t, ConfigStep::Saving) && saves(
                a,
                Seq::empty(),
                s.cfg,
                selected_mailboxes(x@, s.mailboxes@),
            ),
            _ => other,
        },
        ConfigStep::Saving => match e {
            ConfigEvent::Saved => moved(s, t, ConfigStep::Reading) && a is ReadSelection,
            _ => other,
        },
        ConfigStep::Reading => match e {
            ConfigEvent::Selection(v) => moved(s, t, ConfigStep::Done) && finishes(
                a,
                summary_text(s.cfg, v@),
            ),
            _ => other,
        },
        ConfigStep::Done => other,
    }
}

/// The dialogue before it begins: at the start, with the default settings
/// and empty menus.
pub fn config_start() -> (s: ConfigState)
    ensures
        s.step == ConfigStep::Start,
        s.models@.len() == 0,
        s.mailboxes@.len() == 0,
{
    ConfigState {
        step: ConfigStep::Start,
        cfg: AppConfig::defaults(),
        models: Vec::new(),
        mailboxes: Vec::new(),
    }
}

fn model_menu_text(models: &Vec<String>, current: &str) -> (r: String)
    ensures
        r@ == model_menu(models@, current@),
{
    let mut s = "\nAvailable models:\n".to_owned();
    let ghost head = s@;
    let mut i: usize = 0;
    while i < models.len()
        invariant
            i <= models.len(),
            s@ == head + model_lines(models@, current@, i as nat),
        decreases models.len() - i,
    {
        let line = model_menu_line(i, models[i].as_str(), current);
        push_str(&mut s, line.as_str());
        push_str(&mut s, "\n");
        assert(s@ =~= head + model_lines(models@, current@, (i + 1) as nat));
        i += 1;
    }
    push_str(&mut s, "Select model (number, or Enter for current): ");
    s
}

fn mailbox_menu_text(mailboxes: &Vec<String>) -> (r: String)
    ensures
        r@ == mailbox_menu(mailboxes@),
{
    let mut s = "\nStep 2/3 \u{2014} Mailbox Selection\n".to_owned();
    let ghost head = s@;
    let mut i: usize = 0;
    while i < mailboxes.len()
        invariant
            i <= mailboxes.len(),
            s@ == head + menu_lines(mailboxes@, i as nat),
        decreases mailboxes.len() - i,
    {
        let line = mailbox_menu_line(i, mailboxes[i].as_str());
        push_str(&mut s, line.as_str());
        push_str(&mut s, "\n");
        assert(s@ =~= head + menu_lines(mailboxes@, (i + 1) as nat));
        i += 1;
    }
    push_str(&mut s, "\nINBOX always selected.\n");
    push_str(&mut s, "Choose mailboxes (comma-separated numbers, 'all', or Enter for defaults): ");
    s
}

/// One step of the dialogue (see `config_transition`).
pub fn configure(s: ConfigState, e: ConfigEvent) -> (r: (ConfigState, ConfigAction))
    ensures
        config_transition(s, e, r.0, r.1),
{
    match (s.step, e) {
        (ConfigStep::Start, ConfigEvent::Begin) => {
            (ConfigState { step: ConfigStep::Loading, ..s }, ConfigAction::Load)
        },
        (ConfigStep::Loading, ConfigEvent::Loaded(c)) => {
            let mut q = "Step 1/3 \u{2014} Connection Settings\n".to_owned();
            let hq = question_text("IMAP server (hostname)", c.imap_host.as_str());
            push_str(&mut q, hq.as_str());
            (ConfigState { step: ConfigStep::Host, cfg: c, ..s }, ConfigAction::Ask(q))
        },
        (ConfigStep::Host, ConfigEvent::Answer(x)) => {
            let mut q = "IMAP port (current: ".to_owned();
            push_decimal(&mut q, s.cfg.imap_port as u64);
            push_str(&mut q, "): ");
            let v = prompt_value(x.as_str(), s.cfg.imap_host.as_str());
            let cfg = AppConfig { imap_host: v, ..s.cfg };
            (ConfigState { step: ConfigStep::Port, cfg, ..s }, ConfigAction::Ask(q))
        },
        (ConfigStep::Port, ConfigEvent::Answer(x)) => {
            let q = question_text("IMAP username / email", s.cfg.imap_username.as_str());
            let p = parse_port(x.as_str(), s.cfg.imap_port);
            let cfg = AppConfig { imap_port: p, ..s.cfg };
            (ConfigState { step: ConfigStep::User, cfg, ..s }, ConfigAction::Ask(q))
        },
        (ConfigStep::User, ConfigEvent::Answer(x)) => {
            let mut q = "IMAP password".to_owned();
            if !s.cfg.imap_password.as_str().is_empty() {
                push_str(&mut q, " (Enter to keep)");
            }
            push_str(&mut q, ": ");
            let v = prompt_value(x.as_str(), s.cfg.imap_username.as_str());
            let cfg = AppConfig { imap_username: v, ..s.cfg };
            (ConfigState { step: ConfigStep::Password, cfg, ..s }, ConfigAction::Ask(q))
        },
        (ConfigStep::Password, ConfigEvent::Answer(x)) => {
            let mut q = "\n".to_owned();
            let uq = question_text("Ollama base URL", s.cfg.ollama_base_url.as_str());
            push_str(&mut q, uq.as_str());
            let v = prompt_value(x.as_str(), s.cfg.imap_password.as_str());
            let cfg = AppConfig { imap_password: v, ..s.cfg };
            (ConfigState { step: ConfigStep::Url, cfg, ..s }, ConfigAction::Ask(q))
        },
        (ConfigStep::Url, ConfigEvent::Answer(x)) => {
            let v = prompt_value(x.as_str(), s.cfg.ollama_base_url.as_str());
            let u = v.clone();
            let cfg = AppConfig { ollama_base_url: v, ..s.cfg };
            (ConfigState { step: ConfigStep::Models, cfg, ..s }, ConfigAction::ListModels(u))
        },
        (ConfigStep::Models, ConfigEvent::Models(m)) => {
            match m {
                Ok(v) => {
                    if v.len() > 0 {
                        let q = model_menu_text(&v, s.cfg.ollama_model.as_str());
                        (ConfigState { step: ConfigStep::ModelMenu, models: v, ..s }, ConfigAction::Ask(q))
                    } else {
                        let q = question_text("Ollama model name", s.cfg.ollama_model.as_str());
                        (ConfigState { step: ConfigStep::ModelName, ..s }, ConfigAction::Ask(q))
                    }
                },
                Err(_) => {
                    let q = question_text("Ollama model name", s.cfg.ollama_model.as_str());
                    (ConfigState { step: ConfigStep::ModelName, ..s }, ConfigAction::Ask(q))
                },
            }
        },
        (ConfigStep::ModelMenu, ConfigEvent::Answer(x)) => {
            let v = choose_model(x.as_str(), s.models.as_slice(), s.cfg.ollama_model.as_str());
            let cfg = AppConfig { ollama_model: v, ..s.cfg };
            (ConfigState { step: ConfigStep::Mailboxes, cfg, ..s }, ConfigAction::ListMailboxes)
        },
        (ConfigStep::ModelName, ConfigEvent::Answer(x)) => {
            let v = prompt_value(x.as_str(), s.cfg.ollama_model.as_str());
            let cfg = AppConfig { ollama_model: v, ..s.cfg };
            (ConfigState { step: ConfigStep::Mailboxes, cfg, ..s }, ConfigAction::ListMailboxes)
        },
        (ConfigStep::Mailboxes, ConfigEvent::Mailboxes(m)) => {
            match m {
                Some(Err(err)) => {
                    let mut msg = "Cannot connect to mail server \u{2014} can't select mailboxes without connection settings configured: ".to_owned();
                    push_str(&mut msg, err.as_str());
                    (ConfigState { step: ConfigStep::Done, ..s }, ConfigAction::Fail(msg))
                },
                Some(Ok(v)) if v.len() > 0 => {
                    let q = mailbox_menu_text(&v);
                    (ConfigState { step: ConfigStep::MailboxMenu, mailboxes: v, ..s }, ConfigAction::Ask(q))
                },
                _ => {
                    let mut note = "\nStep 2/3 \u{2014} Mailbox Selection\n".to_owned();
                    push_str(&mut note, "  (no mailboxes available \u{2014} connect to IMAP server to see mailbox list)\n");
                    push_str(&mut note, "  Defaulting to INBOX.\n");
                    let mut sel: Vec<String> = Vec::new();
                    sel.push("INBOX".to_owned());
                    assert(names(sel@) =~= seq!["INBOX"@]);
                    let c = s.cfg.duplicate();
                    (ConfigState { step: ConfigStep::Saving, ..s }, ConfigAction::Save(note, c, sel))
                },
            }
        },
        (ConfigStep::MailboxMenu, ConfigEvent::Answer(x)) => {
            let sel = select_mailboxes(x.as_str(), s.mailboxes.as_slice());
            let c = s.cfg.duplicate();
            proof {
                reveal_strlit("");
            }
            (ConfigState { step: ConfigStep::Saving, ..s }, ConfigAction::Save(String::new(), c, sel))
        },
        (ConfigStep::Saving, ConfigEvent::Saved) => {
            (ConfigState { step: ConfigStep::Reading, ..s }, ConfigAction::ReadSelection)
        },
        (ConfigStep::Reading, ConfigEvent::Selection(v)) => {
            let text = config_summary(&s.cfg, v.as_slice());
            (ConfigState { step: ConfigStep::Done, ..s }, ConfigAction::Finish(text))
        },
        (_, e) => {
            (s, ConfigAction::Nothing)
        },
    }
}

} // verus!
