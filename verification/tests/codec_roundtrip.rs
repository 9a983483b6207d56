use gist::codec::{load_config, save_config};
use gist::config::{Config, Login};
use gist::error::ErrorKind;

fn oauth(t: &str) -> Login {
    Login::OAuth(t.to_string())
}

fn pat(u: &str, t: &str) -> Login {
    Login::PersonalAccessToken {
        username: u.to_string(),
        token: t.to_string(),
    }
}

#[test]
fn oauth_entry_encodes_exactly() {
    let mut cfg = Config::new();
    cfg.insert("alice".to_string(), oauth("x"));
    assert_eq!(
        save_config(&cfg),
        "{\"alice\":{\"type\":\"oauth\",\"value\":\"x\"}}"
    );
}

#[test]
fn personal_access_token_entry_encodes_exactly() {
    let mut cfg = Config::new();
    cfg.insert("bob".to_string(), pat("bob", "t"));
    assert_eq!(
        save_config(&cfg),
        "{\"bob\":{\"type\":\"personal_access_token\",\"value\":{\"username\":\"bob\",\"token\":\"t\"}}}"
    );
}

#[test]
fn empty_config_encodes_as_empty_object() {
    assert_eq!(save_config(&Config::new()), "{}");
}

#[test]
fn empty_config_round_trips() {
    let cfg = Config::new();
    let loaded = load_config(&save_config(&cfg)).unwrap();
    assert_eq!(loaded, cfg);
}

#[test]
fn two_entry_config_round_trips() {
    let mut cfg = Config::new();
    cfg.insert("alice".to_string(), oauth("x"));
    cfg.insert("bob".to_string(), pat("bob", "secret"));
    let loaded = load_config(&save_config(&cfg)).unwrap();
    assert_eq!(loaded, cfg);
}

#[test]
fn special_characters_round_trip() {
    let mut cfg = Config::new();
    cfg.insert("a\"b\\c".to_string(), oauth("to\"ken\\end"));
    cfg.insert("unicode é✓".to_string(), pat("ûser", "tok€n"));
    let saved = save_config(&cfg);
    let loaded = load_config(&saved).unwrap();
    assert_eq!(loaded, cfg);
}

#[test]
fn saved_text_is_valid_json_for_serde() {
    let mut cfg = Config::new();
    cfg.insert("a\"b\\c".to_string(), oauth("x\\y\"z"));
    cfg.insert("bob".to_string(), pat("bob", "t"));
    let saved = save_config(&cfg);
    let value: serde_json::Value = serde_json::from_str(&saved).unwrap();
    assert_eq!(
        value["a\"b\\c"]["type"],
        serde_json::Value::String("oauth".to_string())
    );
    assert_eq!(
        value["a\"b\\c"]["value"],
        serde_json::Value::String("x\\y\"z".to_string())
    );
    assert_eq!(
        value["bob"]["value"]["username"],
        serde_json::Value::String("bob".to_string())
    );
}

#[test]
fn hand_written_text_loads() {
    let text = "{\"alice\":{\"type\":\"oauth\",\"value\":\"x\"},\"bob\":{\"type\":\"personal_access_token\",\"value\":{\"username\":\"bob\",\"token\":\"t\"}}}";
    let loaded = load_config(text).unwrap();
    assert_eq!(loaded.len(), 2);
    assert_eq!(loaded.lookup(&"alice".to_string()), Some(&oauth("x")));
    assert_eq!(loaded.lookup(&"bob".to_string()), Some(&pat("bob", "t")));
}

#[test]
fn duplicate_names_keep_the_last_credential() {
    let text = "{\"a\":{\"type\":\"oauth\",\"value\":\"one\"},\"a\":{\"type\":\"oauth\",\"value\":\"two\"}}";
    let loaded = load_config(text).unwrap();
    assert_eq!(loaded.len(), 1);
    assert_eq!(loaded.lookup(&"a".to_string()), Some(&oauth("two")));
}

#[test]
fn unparsable_texts_are_rejected() {
    let bad = [
        "",
        "{",
        "}",
        "[]",
        "{}x",
        "not json",
        "{\"a\":{\"type\":\"oauth\",\"value\":\"x\"}",
        "{\"a\":{\"type\":\"oauth\",\"value\":\"x\"}}trailing",
        "{\"a\":{\"type\":\"unknown\",\"value\":\"x\"}}",
        "{\"a\":\"x\"}",
    ];
    for text in bad {
        let err = load_config(text).unwrap_err();
        assert_eq!(
            err.into_kind(),
            ErrorKind::InvalidConfigFormat {
                message: "unparsable configuration".to_string()
            }
        );
    }
}
