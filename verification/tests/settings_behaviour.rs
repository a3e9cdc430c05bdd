use codex_frontend::errors::BridgeError;
use codex_frontend::facade::load_settings;
use codex_frontend::settings::save_settings;
use codex_frontend::settings::FrontendSettings;
use codex_frontend::settings::SettingsDoc;
use codex_frontend::settings::SettingsValue;

fn text(v: &SettingsValue) -> &str {
    match v {
        SettingsValue::Text(s) => s,
        _ => panic!("expected a text value"),
    }
}

fn flag(v: &SettingsValue) -> bool {
    match v {
        SettingsValue::Flag(b) => *b,
        _ => panic!("expected a flag value"),
    }
}

#[test]
fn saving_only_the_model_leaves_everything_else_unchanged() {
    let mut doc = SettingsDoc::new();
    doc.set("model".to_string(), SettingsValue::Text("old-model".to_string()));
    doc.set("disable_response_storage".to_string(), SettingsValue::Flag(true));
    doc.set("unrelated".to_string(), SettingsValue::Raw("[1, 2]".to_string()));
    save_settings(
        &mut doc,
        &FrontendSettings {
            model: Some("new-model".to_string()),
            disable_response_storage: None,
            hide_agent_reasoning: None,
        },
    );
    assert_eq!(text(doc.get(&"model".to_string()).unwrap()), "new-model");
    assert!(flag(doc.get(&"disable_response_storage".to_string()).unwrap()));
    match doc.get(&"unrelated".to_string()).unwrap() {
        SettingsValue::Raw(s) => assert_eq!(s, "[1, 2]"),
        _ => panic!("unrelated value changed kind"),
    }
    // a subsequent load reflects the new model and the old flags
    let cfg = load_settings(&doc).unwrap();
    assert_eq!(cfg.model.as_deref(), Some("new-model"));
    assert!(cfg.disable_response_storage);
    assert!(!cfg.hide_agent_reasoning);
}

#[test]
fn saving_nothing_changes_nothing() {
    let mut doc = SettingsDoc::new();
    doc.set("model".to_string(), SettingsValue::Text("m".to_string()));
    save_settings(
        &mut doc,
        &FrontendSettings { model: None, disable_response_storage: None, hide_agent_reasoning: None },
    );
    assert_eq!(doc.entries.len(), 1);
    assert_eq!(text(doc.get(&"model".to_string()).unwrap()), "m");
}

#[test]
fn saving_every_field_writes_every_key() {
    let mut doc = SettingsDoc::new();
    save_settings(
        &mut doc,
        &FrontendSettings {
            model: Some("m".to_string()),
            disable_response_storage: Some(true),
            hide_agent_reasoning: Some(false),
        },
    );
    assert_eq!(text(doc.get(&"model".to_string()).unwrap()), "m");
    assert!(flag(doc.get(&"disable_response_storage".to_string()).unwrap()));
    assert!(!flag(doc.get(&"hide_agent_reasoning".to_string()).unwrap()));
}

#[test]
fn set_replaces_an_existing_key_in_place() {
    let mut doc = SettingsDoc::new();
    doc.set("model".to_string(), SettingsValue::Text("one".to_string()));
    doc.set("model".to_string(), SettingsValue::Text("two".to_string()));
    assert_eq!(doc.entries.len(), 1);
    assert_eq!(text(doc.get(&"model".to_string()).unwrap()), "two");
}

#[test]
fn get_of_a_missing_key_is_none() {
    let doc = SettingsDoc::new();
    assert!(doc.get(&"model".to_string()).is_none());
}

#[test]
fn defaults_load_from_an_empty_document() {
    let cfg = load_settings(&SettingsDoc::new()).unwrap();
    assert!(cfg.model.is_none());
    assert!(!cfg.disable_response_storage);
    assert!(!cfg.hide_agent_reasoning);
    assert!(cfg.cwd.is_none());
    assert!(!cfg.include_plan_tool);
}

#[test]
fn a_wrongly_kinded_value_fails_the_load() {
    let mut doc = SettingsDoc::new();
    doc.set("hide_agent_reasoning".to_string(), SettingsValue::Text("yes".to_string()));
    let r = load_settings(&doc);
    assert!(matches!(r, Err(BridgeError::ConfigurationError)));
}
