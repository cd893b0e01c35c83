//! The settings the program runs with: how to reach the mail server and the
//! language model.
use vstd::prelude::*;
use crate::text::{
    all_digits, decimal, decimal_string, digit_char, digits_value, parse_unsigned, parse_unsigned_exec,
    same_text,
};

verus! {

/// Connection settings for the mail server and the summarising model.
#[derive(Debug, Clone)]
pub struct AppConfig {
    pub imap_host: String,
    pub imap_port: u16,
    pub imap_username: String,
    pub imap_password: String,
    pub ollama_base_url: String,
    pub ollama_model: String,
}

impl AppConfig {
    /// The settings used before anything is configured: Gmail over TLS, no
    /// credentials, and a local Ollama serving "qwen2.5-coder:7b".
    pub fn defaults() -> (c: Self)
        ensures
            c.imap_host@ == "imap.gmail.com"@,
            c.imap_port == 993,
            c.imap_username@.len() == 0,
            c.imap_password@.len() == 0,
            c.ollama_base_url@ == "http://localhost:11434"@,
            c.ollama_model@ == "qwen2.5-coder:7b"@,
    {
        Self {
            imap_host: "imap.gmail.com".to_owned(),
            imap_port: 993,
            imap_username: String::new(),
            imap_password: String::new(),
            ollama_base_url: "http://localhost:11434".to_owned(),
            ollama_model: "qwen2.5-coder:7b".to_owned(),
        }
    }

    /// Whether enough is configured to log in: a host, a user name and a
    /// password.
    pub fn is_complete(&self) -> (r: bool)
        ensures
            r == (self.imap_host@.len() > 0 && self.imap_username@.len() > 0
                && self.imap_password@.len() > 0),
    {
        !self.imap_host.as_str().is_empty() && !self.imap_username.as_str().is_empty()
            && !self.imap_password.as_str().is_empty()
    }

    /// A field-by-field copy of the settings.
    pub fn duplicate(&self) -> (r: Self)
        ensures
            r == *self,
    {
        Self {
            imap_host: self.imap_host.clone(),
            imap_port: self.imap_port,
            imap_username: self.imap_username.clone(),
            imap_password: self.imap_password.clone(),
            ollama_base_url: self.ollama_base_url.clone(),
            ollama_model: self.ollama_model.clone(),
        }
    }
}

impl Default for AppConfig {
    fn default() -> (c: Self)
        ensures
            c.imap_host@ == "imap.gmail.com"@,
            c.imap_port == 993,
            c.imap_username@.len() == 0,
            c.imap_password@.len() == 0,
            c.ollama_base_url@ == "http://localhost:11434"@,
            c.ollama_model@ == "qwen2.5-coder:7b"@,
    {
        Self::defaults()
    }
}

} // verus!

verus! {

/// The key and value pairs `v`, as plain text.
pub open spec fn pair_views(v: Seq<(String, String)>) -> Seq<(Seq<char>, Seq<char>)> {
    v.map_values(|p: (String, String)| (p.0@, p.1@))
}

/// The value last stored under `key` in `entries`, if any: a later entry
/// replaces an earlier one.
pub open spec fn stored_value(entries: Seq<(Seq<char>, Seq<char>)>, key: Seq<char>) -> Option<Seq<char>>
    decreases entries.len(),
{
    if entries.len() == 0 {
        None
    } else if entries.last().0 == key {
        Some(entries.last().1)
    } else {
        stored_value(entries.drop_last(), key)
    }
}

/// The value stored under `key`, or `default` where none is.
pub open spec fn value_or(entries: Seq<(Seq<char>, Seq<char>)>, key: Seq<char>, default: Seq<char>) -> Seq<char> {
    match stored_value(entries, key) {
        Some(v) => v,
        None => default,
    }
}

/// The port read back from `entries`: the stored text read as a port number,
/// or 993 where none is stored or it is not a number.
pub open spec fn restored_port(entries: Seq<(Seq<char>, Seq<char>)>) -> u16 {
    match stored_value(entries, "imap_port"@) {
        Some(v) => match parse_unsigned(v, 65535) {
            Some(p) => p as u16,
            None => 993,
        },
        None => 993,
    }
}

/// `c` holds the settings read back from the stored `entries`: each stored
/// value, and the default settings' value where none is stored.
pub open spec fn is_restored(c: AppConfig, entries: Seq<(Seq<char>, Seq<char>)>) -> bool {
    &&& c.imap_host@ == value_or(entries, "imap_host"@, "imap.gmail.com"@)
    &&& c.imap_port == restored_port(entries)
    &&& c.imap_username@ == value_or(entries, "imap_username"@, Seq::empty())
    &&& c.imap_password@ == value_or(entries, "imap_password"@, Seq::empty())
    &&& c.ollama_base_url@ == value_or(entries, "ollama_base_url"@, "http://localhost:11434"@)
    &&& c.ollama_model@ == value_or(entries, "ollama_model"@, "qwen2.5-coder:7b"@)
}

/// The entries under which the settings `cfg` are stored, the port in
/// decimal.
pub open spec fn entries_of(cfg: AppConfig) -> Seq<(Seq<char>, Seq<char>)> {
    seq![
        ("imap_host"@, cfg.imap_host@),
        ("imap_port"@, decimal(cfg.imap_port as nat)),
        ("imap_username"@, cfg.imap_username@),
        ("imap_password"@, cfg.imap_password@),
        ("ollama_base_url"@, cfg.ollama_base_url@),
        ("ollama_model"@, cfg.ollama_model@),
    ]
}

/// The entries under which the settings `cfg` are stored (see `entries_of`).
pub fn config_entries(cfg: &AppConfig) -> (r: Vec<(String, String)>)
    ensures
        pair_views(r@) == entries_of(*cfg),
{
    let mut r: Vec<(String, String)> = Vec::new();
    r.push(("imap_host".to_owned(), cfg.imap_host.clone()));
    r.push(("imap_port".to_owned(), decimal_string(cfg.imap_port as u64)));
    r.push(("imap_username".to_owned(), cfg.imap_username.clone()));
    r.push(("imap_password".to_owned(), cfg.imap_password.clone()));
    r.push(("ollama_base_url".to_owned(), cfg.ollama_base_url.clone()));
    r.push(("ollama_model".to_owned(), cfg.ollama_model.clone()));
    assert(pair_views(r@) =~= entries_of(*cfg));
    r
}

fn find_stored(entries: &[(String, String)], key: &str) -> (r: Option<String>)
    ensures
        match r {
            Some(v) => stored_value(pair_views(entries@), key@) == Some(v@),
            None => stored_value(pair_views(entries@), key@) is None,
        },
{
    let mut i: usize = entries.len();
    assert(entries@.take(entries@.len() as int) == entries@);
    while i > 0
        invariant
            i <= entries.len(),
            stored_value(pair_views(entries@.take(i as int)), key@) == stored_value(
                pair_views(entries@),
                key@,
            ),
        decreases i,
    {
        let ghost p = pair_views(entries@.take(i as int));
        assert(pair_views(entries@.take(i - 1)) == p.drop_last());
        assert(p.last() == (entries@[i - 1].0@, entries@[i - 1].1@));
        if same_text(entries[i - 1].0.as_str(), key) {
            return Some(entries[i - 1].1.clone());
        }
        i -= 1;
    }
    assert(pair_views(entries@.take(0)).len() == 0);
    None
}

fn stored_or(entries: &[(String, String)], key: &str, default: &str) -> (r: String)
    ensures
        r@ == value_or(pair_views(entries@), key@, default@),
{
    match find_stored(entries, key) {
        Some(v) => v,
        None => default.to_owned(),
    }
}

/// The settings read back from the stored `entries` (see `is_restored`).
pub fn config_from_entries(entries: &[(String, String)]) -> (c: AppConfig)
    ensures
        is_restored(c, pair_views(entries@)),
{
    let port: u16 = match find_stored(entries, "imap_port") {
        Some(v) => match parse_unsigned_exec(v.as_str(), 65535) {
            Some(p) => p as u16,
            None => 993,
        },
        None => 993,
    };
    proof {
        reveal_strlit("");
    }
    let c = AppConfig {
        imap_host: stored_or(entries, "imap_host", "imap.gmail.com"),
        imap_port: port,
        imap_username: stored_or(entries, "imap_username", ""),
        imap_password: stored_or(entries, "imap_password", ""),
        ollama_base_url: stored_or(entries, "ollama_base_url", "http://localhost:11434"),
        ollama_model: stored_or(entries, "ollama_model", "qwen2.5-coder:7b"),
    };
    let ghost e = pair_views(entries@);
    assert(c.imap_host@ == value_or(e, "imap_host"@, "imap.gmail.com"@));
    assert(c.imap_port == restored_port(e));
    assert(c.imap_username@ == value_or(e, "imap_username"@, Seq::empty()));
    assert(c.ollama_model@ == value_or(e, "ollama_model"@, "qwen2.5-coder:7b"@));
    assert(c.imap_password@ == value_or(e, "imap_password"@, Seq::empty()));
    assert(c.ollama_base_url@ == value_or(e, "ollama_base_url"@, "http://localhost:11434"@));
    assert(is_restored(c, e));
    c
}

} // verus!

verus! {

proof fn lemma_decimal_digits(n: nat)
    ensures
        decimal(n).len() > 0,
        all_digits(decimal(n)),
        digits_value(decimal(n)) == n,
        decimal(n)[0] != '+',
    decreases n,
{
    if n >= 10 {
        lemma_decimal_digits(n / 10);
        let d = decimal(n);
        let h = decimal(n / 10);
        assert(d == h.push(digit_char(n % 10)));
        assert(d.drop_last() == h);
        assert(d[0] == h[0]);
        assert((digit_char(n % 10) as u32) == 48 + n % 10);
        assert(d.last() == digit_char(n % 10));
        assert(digits_value(d) == digits_value(h) * 10 + n % 10);
        assert(digits_value(h) == n / 10);
        assert((n / 10) * 10 + n % 10 == n) by (nonlinear_arith);
        assert forall|i: int| 0 <= i < d.len() implies '0' <= #[trigger] d[i] && d[i] <= '9' by {
            if i < h.len() {
                assert(d[i] == h[i]);
            }
        }
    } else {
        let d = decimal(n);
        assert(d.drop_last().len() == 0);
        assert(d.last() == digit_char(n));
        assert((digit_char(n) as u32) == 48 + n);
        assert(digits_value(d.drop_last()) == 0);
        assert(digits_value(d) == digits_value(d.drop_last()) * 10 + n);
    }
}

/// Law: settings stored as their entries read back as the same settings.
pub proof fn restoring_stored_settings_gives_them_back(cfg: AppConfig, c: AppConfig)
    requires
        is_restored(c, entries_of(cfg)),
    ensures
        c.imap_host@ == cfg.imap_host@,
        c.imap_port == cfg.imap_port,
        c.imap_username@ == cfg.imap_username@,
        c.imap_password@ == cfg.imap_password@,
        c.ollama_base_url@ == cfg.ollama_base_url@,
        c.ollama_model@ == cfg.ollama_model@,
{
    let e = entries_of(cfg);
    reveal_with_fuel(stored_value, 7);
    reveal_strlit("imap_host");
    reveal_strlit("imap_port");
    reveal_strlit("imap_username");
    reveal_strlit("imap_password");
    reveal_strlit("ollama_base_url");
    reveal_strlit("ollama_model");
    let e5 = e.drop_last();
    let e4 = e5.drop_last();
    let e3 = e4.drop_last();
    let e2 = e3.drop_last();
    let e1 = e2.drop_last();
    assert(e.last() == e[5] && e5.last() == e[4] && e4.last() == e[3]);
    assert(e3.last() == e[2] && e2.last() == e[1] && e1.last() == e[0]);
    assert(e1.drop_last().len() == 0);
    assert("ollama_model"@.len() == 12 && "ollama_base_url"@.len() == 15);
    assert("imap_password"@.len() == 13 && "imap_username"@.len() == 13);
    assert("imap_port"@.len() == 9 && "imap_host"@.len() == 9);
    assert("ollama_model"@ != "ollama_base_url"@ && "ollama_model"@ != "imap_password"@);
    assert("ollama_model"@ != "imap_username"@ && "ollama_model"@ != "imap_port"@);
    assert("ollama_model"@ != "imap_host"@ && "ollama_base_url"@ != "imap_password"@);
    assert("ollama_base_url"@ != "imap_username"@ && "ollama_base_url"@ != "imap_port"@);
    assert("ollama_base_url"@ != "imap_host"@);
    assert("imap_password"@[5] != "imap_username"@[5]);
    assert("imap_password"@ != "imap_port"@ && "imap_password"@ != "imap_host"@);
    assert("imap_username"@ != "imap_port"@ && "imap_username"@ != "imap_host"@);
    assert("imap_port"@[5] != "imap_host"@[5]);
    assert(stored_value(e, "ollama_model"@) == Some(cfg.ollama_model@));
    assert(stored_value(e, "ollama_base_url"@) == Some(cfg.ollama_base_url@));
    assert(stored_value(e, "imap_password"@) == Some(cfg.imap_password@));
    assert(stored_value(e, "imap_username"@) == Some(cfg.imap_username@));
    assert(stored_value(e, "imap_port"@) == Some(decimal(cfg.imap_port as nat)));
    assert(stored_value(e, "imap_host"@) == Some(cfg.imap_host@));
    lemma_decimal_digits(cfg.imap_port as nat);
}

} // verus!
