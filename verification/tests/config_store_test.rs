use br1ef::config::{config_entries, config_from_entries, AppConfig};

/// A settings table: key and value rows, a later row for a key replacing an
/// earlier one.
struct Table(Vec<(String, String)>);

impl Table {
    fn new() -> Self {
        Table(Vec::new())
    }

    fn set_app_config(&mut self, cfg: &AppConfig) {
        for (k, v) in config_entries(cfg) {
            self.upsert(&k, &v);
        }
    }

    fn upsert(&mut self, key: &str, value: &str) {
        self.0.retain(|(k, _)| k != key);
        self.0.push((key.to_string(), value.to_string()));
    }

    fn get_app_config(&self) -> AppConfig {
        config_from_entries(&self.0)
    }
}

#[test]
fn app_config_partial_in_db_returns_defaults_for_missing_keys() {
    let mut s = Table::new();
    s.set_app_config(&AppConfig::defaults());
    s.upsert("imap_host", "imap.test.com");
    s.upsert("imap_port", "993");

    let cfg = s.get_app_config();

    assert_eq!(cfg.imap_host, "imap.test.com");
    assert_eq!(cfg.imap_port, 993);
    assert!(cfg.imap_username.is_empty());
    assert!(cfg.imap_password.is_empty());
    assert!(!cfg.is_complete());
}

#[test]
fn app_config_corrupt_port_falls_back_to_default() {
    let mut s = Table::new();
    s.set_app_config(&AppConfig::defaults());
    s.upsert("imap_port", "not-a-number");

    let cfg = s.get_app_config();

    assert_eq!(cfg.imap_port, 993);
}

#[test]
fn app_config_empty_table_returns_defaults() {
    let s = Table::new();

    let cfg = s.get_app_config();

    assert_eq!(cfg.imap_host, "imap.gmail.com");
    assert_eq!(cfg.imap_port, 993);
    assert_eq!(cfg.ollama_base_url, "http://localhost:11434");
    assert!(!cfg.is_complete());
}

#[test]
fn app_config_roundtrip_preserves_all_fields() {
    let mut s = Table::new();
    let cfg = AppConfig {
        imap_host: "imap.test.com".into(),
        imap_port: 143,
        imap_username: "user@test.com".into(),
        imap_password: "p@ss".into(),
        ollama_base_url: "http://ollama:11434".into(),
        ollama_model: "llama3.2:3b".into(),
    };

    s.set_app_config(&cfg);
    let loaded = s.get_app_config();

    assert_eq!(loaded.imap_host, "imap.test.com");
    assert_eq!(loaded.imap_port, 143);
    assert_eq!(loaded.imap_username, "user@test.com");
    assert_eq!(loaded.imap_password, "p@ss");
    assert_eq!(loaded.ollama_base_url, "http://ollama:11434");
    assert_eq!(loaded.ollama_model, "llama3.2:3b");
    assert!(loaded.is_complete());
}
