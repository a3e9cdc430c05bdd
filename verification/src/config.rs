//! The effective configuration and the overrides a caller may supply.
//!
//! Loading a configuration reads the persisted settings document,
//! checks that each interpreted key holds a value of the right kind,
//! and applies the caller's overrides on top; a value of the wrong
//! kind is a `ConfigurationError`.

use vstd::prelude::*;

use crate::errors::BridgeError;
use crate::settings::SettingsDoc;
use crate::settings::SettingsValue;
use crate::settings::ValueV;

verus! {

/// Configuration overrides: every field is optional and an omitted
/// field leaves the loaded value in force.
pub struct ConfigOverrides {
    pub model: Option<String>,
    pub cwd: Option<String>,
    pub approval_policy: Option<String>,
    pub sandbox_mode: Option<String>,
    pub model_provider: Option<String>,
    pub config_profile: Option<String>,
    pub codex_linux_sandbox_exe: Option<String>,
    pub base_instructions: Option<String>,
    pub include_plan_tool: Option<bool>,
    pub include_apply_patch_tool: Option<bool>,
    pub include_view_image_tool: Option<bool>,
    pub disable_response_storage: Option<bool>,
    pub show_raw_agent_reasoning: Option<bool>,
    pub tools_web_search_request: Option<bool>,
}

/// The overrides every command uses: nothing overridden.
pub fn default_overrides() -> (o: ConfigOverrides)
    ensures
        o.model is None,
        o.cwd is None,
        o.approval_policy is None,
        o.sandbox_mode is None,
        o.model_provider is None,
        o.config_profile is None,
        o.codex_linux_sandbox_exe is None,
        o.base_instructions is None,
        o.include_plan_tool is None,
        o.include_apply_patch_tool is None,
        o.include_view_image_tool is None,
        o.disable_response_storage is None,
        o.show_raw_agent_reasoning is None,
        o.tools_web_search_request is None,
{
    ConfigOverrides {
        model: None,
        cwd: None,
        approval_policy: None,
        sandbox_mode: None,
        model_provider: None,
        config_profile: None,
        codex_linux_sandbox_exe: None,
        base_instructions: None,
        include_plan_tool: None,
        include_apply_patch_tool: None,
        include_view_image_tool: None,
        disable_response_storage: None,
        show_raw_agent_reasoning: None,
        tools_web_search_request: None,
    }
}

/// The effective configuration a conversation task is constructed from.
pub struct Config {
    pub model: Option<String>,
    pub cwd: Option<String>,
    pub approval_policy: Option<String>,
    pub sandbox_mode: Option<String>,
    pub model_provider: Option<String>,
    pub config_profile: Option<String>,
    pub codex_linux_sandbox_exe: Option<String>,
    pub base_instructions: Option<String>,
    pub include_plan_tool: bool,
    pub include_apply_patch_tool: bool,
    pub include_view_image_tool: bool,
    pub disable_response_storage: bool,
    pub show_raw_agent_reasoning: bool,
    pub tools_web_search_request: bool,
    pub hide_agent_reasoning: bool,
}

/// The characters of an optional text.
pub open spec fn opt_view(o: Option<String>) -> Option<Seq<char>> {
    match o {
        Option::None => None,
        Option::Some(s) => Some(s@),
    }
}

/// An optional flag, or `false` where it was omitted.
pub open spec fn flag_or_false(o: Option<bool>) -> bool {
    match o {
        Option::None => false,
        Option::Some(b) => b,
    }
}

/// The model name the document holds, where it holds one as text.
pub open spec fn effective_model(doc: SettingsDoc) -> Option<Seq<char>> {
    match doc.get_view("model"@) {
        Option::Some(ValueV::TextV(t)) => Some(t),
        _ => None,
    }
}

/// The flag the document holds under `key`, or `false` where it holds
/// none.
pub open spec fn effective_flag(doc: SettingsDoc, key: Seq<char>) -> bool {
    match doc.get_view(key) {
        Option::Some(ValueV::FlagV(b)) => b,
        _ => false,
    }
}

/// Whether a present value has the wrong kind for a text key.
pub open spec fn bad_text(v: Option<ValueV>) -> bool {
    match v {
        Option::None => false,
        Option::Some(ValueV::TextV(_)) => false,
        Option::Some(_) => true,
    }
}

/// Whether a present value has the wrong kind for a flag key.
pub open spec fn bad_flag(v: Option<ValueV>) -> bool {
    match v {
        Option::None => false,
        Option::Some(ValueV::FlagV(_)) => false,
        Option::Some(_) => true,
    }
}

/// Whether the document holds a wrongly-kinded value under an
/// interpreted key: exactly then loading fails.
pub open spec fn doc_conflicts(doc: SettingsDoc) -> bool {
    ||| bad_text(doc.get_view("model"@))
    ||| bad_flag(doc.get_view("disable_response_storage"@))
    ||| bad_flag(doc.get_view("hide_agent_reasoning"@))
}

/// Copy an optional text.
fn clone_opt_text(o: &Option<String>) -> (r: Option<String>)
    ensures
        opt_view(r) == opt_view(*o),
{
    match o {
        None => None,
        Some(s) => Some(s.clone()),
    }
}

/// Read an optional flag, `false` where omitted.
fn read_flag(o: &Option<bool>) -> (r: bool)
    ensures
        r == flag_or_false(*o),
{
    match o {
        None => false,
        Some(b) => *b,
    }
}

/// The effective configuration from a settings document and overrides:
/// an interpreted key of the wrong kind fails with
/// `ConfigurationError`; otherwise each override wins over the loaded
/// value, and omitted flags default to `false`.
pub fn from_doc(doc: &SettingsDoc, ov: &ConfigOverrides) -> (r: Result<Config, BridgeError>)
    ensures
        doc_conflicts(*doc) <==> r == Err::<Config, BridgeError>(BridgeError::ConfigurationError),
        r is Err ==> r == Err::<Config, BridgeError>(BridgeError::ConfigurationError),
        r is Ok ==> ({
            let c = r->Ok_0;
            &&& opt_view(c.model) == (if ov.model is Some {
                Some(ov.model->0@)
            } else {
                effective_model(*doc)
            })
            &&& opt_view(c.cwd) == opt_view(ov.cwd)
            &&& opt_view(c.approval_policy) == opt_view(ov.approval_policy)
            &&& opt_view(c.sandbox_mode) == opt_view(ov.sandbox_mode)
            &&& opt_view(c.model_provider) == opt_view(ov.model_provider)
            &&& opt_view(c.config_profile) == opt_view(ov.config_profile)
            &&& opt_view(c.codex_linux_sandbox_exe) == opt_view(ov.codex_linux_sandbox_exe)
            &&& opt_view(c.base_instructions) == opt_view(ov.base_instructions)
            &&& c.include_plan_tool == flag_or_false(ov.include_plan_tool)
            &&& c.include_apply_patch_tool == flag_or_false(ov.include_apply_patch_tool)
            &&& c.include_view_image_tool == flag_or_false(ov.include_view_image_tool)
            &&& c.disable_response_storage == (if ov.disable_response_storage is Some {
                ov.disable_response_storage->0
            } else {
                effective_flag(*doc, "disable_response_storage"@)
            })
            &&& c.show_raw_agent_reasoning == flag_or_false(ov.show_raw_agent_reasoning)
            &&& c.tools_web_search_request == flag_or_false(ov.tools_web_search_request)
            &&& c.hide_agent_reasoning == effective_flag(*doc, "hide_agent_reasoning"@)
        }),
{
    let mut doc_model: Option<String> = None;
    match doc.get(&"model".to_owned()) {
        None => {},
        Some(SettingsValue::Text(s)) => {
            doc_model = Some(s.clone());
        },
        Some(_) => {
            return Err(BridgeError::ConfigurationError);
        },
    }
    let mut doc_disable: bool = false;
    match doc.get(&"disable_response_storage".to_owned()) {
        None => {},
        Some(SettingsValue::Flag(b)) => {
            doc_disable = *b;
        },
        Some(_) => {
            return Err(BridgeError::ConfigurationError);
        },
    }
    let mut doc_hide: bool = false;
    match doc.get(&"hide_agent_reasoning".to_owned()) {
        None => {},
        Some(SettingsValue::Flag(b)) => {
            doc_hide = *b;
        },
        Some(_) => {
            return Err(BridgeError::ConfigurationError);
        },
    }
    let model = match &ov.model {
        Some(m) => Some(m.clone()),
        None => doc_model,
    };
    let disable_response_storage = match &ov.disable_response_storage {
        Some(b) => *b,
        None => doc_disable,
    };
    Ok(
        Config {
            model,
            cwd: clone_opt_text(&ov.cwd),
            approval_policy: clone_opt_text(&ov.approval_policy),
            sandbox_mode: clone_opt_text(&ov.sandbox_mode),
            model_provider: clone_opt_text(&ov.model_provider),
            config_profile: clone_opt_text(&ov.config_profile),
            codex_linux_sandbox_exe: clone_opt_text(&ov.codex_linux_sandbox_exe),
            base_instructions: clone_opt_text(&ov.base_instructions),
            include_plan_tool: read_flag(&ov.include_plan_tool),
            include_apply_patch_tool: read_flag(&ov.include_apply_patch_tool),
            include_view_image_tool: read_flag(&ov.include_view_image_tool),
            disable_response_storage,
            show_raw_agent_reasoning: read_flag(&ov.show_raw_agent_reasoning),
            tools_web_search_request: read_flag(&ov.tools_web_search_request),
            hide_agent_reasoning: doc_hide,
        },
    )
}

/// Partial-update law, read back: after an update that changed only the
/// model key (to a text), the effective model is the new one, every
/// other effective value is the old one, and a document that loaded
/// cleanly still loads cleanly.
pub proof fn lemma_partial_update_reflected(d1: SettingsDoc, d2: SettingsDoc, m: Seq<char>)
    requires
        d2.get_view("model"@) == Some(ValueV::TextV(m)),
        forall|k: Seq<char>| k != "model"@ ==> #[trigger] d2.get_view(k) == d1.get_view(k),
    ensures
        effective_model(d2) == Some(m),
        effective_flag(d2, "disable_response_storage"@) == effective_flag(
            d1,
            "disable_response_storage"@,
        ),
        effective_flag(d2, "hide_agent_reasoning"@) == effective_flag(
            d1,
            "hide_agent_reasoning"@,
        ),
        !doc_conflicts(d1) ==> !doc_conflicts(d2),
{
    reveal_strlit("model");
    reveal_strlit("disable_response_storage");
    reveal_strlit("hide_agent_reasoning");
    assert("model"@.len() == 5);
    assert("disable_response_storage"@.len() == 24);
    assert("hide_agent_reasoning"@.len() == 20);
    assert(d2.get_view("disable_response_storage"@) == d1.get_view(
        "disable_response_storage"@,
    ));
    assert(d2.get_view("hide_agent_reasoning"@) == d1.get_view("hide_agent_reasoning"@));
}

} // verus!
