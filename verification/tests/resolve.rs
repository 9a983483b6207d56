use gist::config::{needs_config, select_account, Account, Config, Login};
use gist::error::ErrorKind;

fn oauth(t: &str) -> Login {
    Login::OAuth(t.to_string())
}

fn pat(u: &str, t: &str) -> Login {
    Login::PersonalAccessToken {
        username: u.to_string(),
        token: t.to_string(),
    }
}

fn no_selector() -> Account {
    Account {
        access_token: None,
        username: None,
        password: None,
    }
}

#[test]
fn default_account_is_first_entry() {
    let mut cfg = Config::new();
    cfg.insert("alice".to_string(), oauth("x"));
    let got = select_account(&no_selector(), &cfg).unwrap();
    assert_eq!(got, oauth("x"));
}

#[test]
fn missing_saved_account_is_account_not_found() {
    let mut cfg = Config::new();
    cfg.insert("alice".to_string(), oauth("x"));
    let account = Account {
        access_token: None,
        username: Some("bob".to_string()),
        password: None,
    };
    let err = select_account(&account, &cfg).unwrap_err();
    assert_eq!(
        err.into_kind(),
        ErrorKind::AccountNotFound {
            name: "bob".to_string()
        }
    );
}

#[test]
fn empty_config_without_selector_is_empty_config_error() {
    let cfg = Config::new();
    let err = select_account(&no_selector(), &cfg).unwrap_err();
    assert_eq!(err.into_kind(), ErrorKind::EmptyConfig);
}

#[test]
fn explicit_token_wins_over_everything() {
    let mut cfg = Config::new();
    cfg.insert("alice".to_string(), oauth("saved"));
    let account = Account {
        access_token: Some("explicit".to_string()),
        username: Some("alice".to_string()),
        password: Some("pw".to_string()),
    };
    let got = select_account(&account, &cfg).unwrap();
    assert_eq!(got, oauth("explicit"));
}

#[test]
fn username_and_password_make_a_personal_access_token() {
    let cfg = Config::new();
    let account = Account {
        access_token: None,
        username: Some("alice".to_string()),
        password: Some("pw".to_string()),
    };
    let got = select_account(&account, &cfg).unwrap();
    assert_eq!(got, pat("alice", "pw"));
}

#[test]
fn username_alone_names_a_saved_account() {
    let mut cfg = Config::new();
    cfg.insert("alice".to_string(), oauth("a"));
    cfg.insert("bob".to_string(), pat("bob", "t"));
    let account = Account {
        access_token: None,
        username: Some("bob".to_string()),
        password: None,
    };
    let got = select_account(&account, &cfg).unwrap();
    assert_eq!(got, pat("bob", "t"));
}

#[test]
fn password_alone_is_ignored_and_falls_back_to_first_entry() {
    let mut cfg = Config::new();
    cfg.insert("alice".to_string(), oauth("a"));
    let account = Account {
        access_token: None,
        username: None,
        password: Some("pw".to_string()),
    };
    let got = select_account(&account, &cfg).unwrap();
    assert_eq!(got, oauth("a"));
}

#[test]
fn first_entry_follows_insertion_order() {
    let mut cfg = Config::new();
    cfg.insert("first".to_string(), oauth("1"));
    cfg.insert("second".to_string(), oauth("2"));
    let got = select_account(&no_selector(), &cfg).unwrap();
    assert_eq!(got, oauth("1"));
}

#[test]
fn insert_overwrites_in_place_and_keeps_order() {
    let mut cfg = Config::new();
    cfg.insert("a".to_string(), oauth("old"));
    cfg.insert("b".to_string(), oauth("bee"));
    cfg.insert("a".to_string(), oauth("new"));
    assert_eq!(cfg.len(), 2);
    assert_eq!(cfg.entry(0).0, "a");
    assert_eq!(cfg.entry(0).1, oauth("new"));
    assert_eq!(cfg.entry(1).0, "b");
    assert_eq!(cfg.entry(1).1, oauth("bee"));
}

#[test]
fn lookup_finds_saved_credentials() {
    let mut cfg = Config::new();
    cfg.insert("a".to_string(), oauth("x"));
    cfg.insert("b".to_string(), pat("b", "y"));
    assert_eq!(cfg.lookup(&"a".to_string()), Some(&oauth("x")));
    assert_eq!(cfg.lookup(&"b".to_string()), Some(&pat("b", "y")));
    assert_eq!(cfg.lookup(&"c".to_string()), None);
}

#[test]
fn new_config_is_empty() {
    let cfg = Config::new();
    assert!(cfg.is_empty());
    assert_eq!(cfg.len(), 0);
}

#[test]
fn config_is_needed_only_without_explicit_credentials() {
    assert!(needs_config(&no_selector()));
    assert!(needs_config(&Account {
        access_token: None,
        username: Some("alice".to_string()),
        password: None,
    }));
    assert!(!needs_config(&Account {
        access_token: Some("t".to_string()),
        username: None,
        password: None,
    }));
    assert!(!needs_config(&Account {
        access_token: None,
        username: Some("alice".to_string()),
        password: Some("pw".to_string()),
    }));
}
