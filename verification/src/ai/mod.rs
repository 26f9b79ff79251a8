//! The AI design assistant: the element the user picked, the requests sent
//! to the model, the sanitiser for its answers and the exported prompt.
pub mod groq;
pub mod preview_history;
pub mod prompt_export;
pub mod validator;

use vstd::prelude::*;
use crate::kv_map::StringMap;
use crate::text::{blank, chars_of, has_prefix, is_blank, opt_str, starts_with_str, string_from_chars};
use groq::{GroqProvider, chosen_model, default_model};

pub use validator::{AICssRule, AIPreviewResponse, CssValidator};

verus! {

/// Layout facts about an ancestor of the selected element.
pub struct ParentContext {
    pub tag: String,
    pub id: Option<String>,
    pub classes: Vec<String>,
    pub layout_styles: StringMap,
}

/// The element that the user selected in the page.
pub struct ElementContext {
    pub tag: String,
    pub id: Option<String>,
    pub classes: Vec<String>,
    pub attributes: StringMap,
    pub text: Option<String>,
    pub selector: String,
    pub computed_styles: StringMap,
    pub parent_context: Option<ParentContext>,
    pub grandparent_context: Option<ParentContext>,
}

/// A request for a visual preview.
pub struct AIPreviewRequest {
    pub instruction: String,
    pub element_context: ElementContext,
    pub current_preview_css: Option<String>,
}

/// A request to export the applied preview as an implementation prompt.
pub struct AIExportRequest {
    pub instruction: String,
    pub element_context: ElementContext,
    pub applied_css_rules: Vec<AICssRule>,
}

/// Which AI provider to use, with which key and model.
pub struct AISettings {
    pub provider: String,
    pub api_key: String,
    pub model: String,
}

impl Default for AISettings {
    /// Groq, no key, the default model.
    fn default() -> (s: Self)
        ensures
            s.provider@ == "groq"@,
            s.api_key@ == Seq::<char>::empty(),
            s.model@ == default_model(),
    {
        AISettings {
            provider: String::from_str("groq"),
            api_key: String::new(),
            model: String::from_str("openai/gpt-oss-120b"),
        }
    }
}

/// The provider that the settings select: Groq, whatever the provider name,
/// with the settings' key and model.
pub fn create_ai_provider(settings: &AISettings) -> (p: GroqProvider)
    ensures
        p@ == (settings.api_key@, chosen_model(Some(settings.model@))),
{
    GroqProvider::new(settings.api_key.clone(), Some(settings.model.clone()))
}

/// The stored API key when it is not blank, else the key from the environment, else none.
pub open spec fn effective_api_key(stored: Option<Seq<char>>, env: Option<Seq<char>>) -> Seq<char> {
    match stored {
        Some(k) if !is_blank(k) => k,
        _ => match env {
            Some(e) => e,
            None => Seq::empty(),
        },
    }
}

/// The AI settings from the stored values (each missing when not stored) and
/// the `GROQ_API_KEY` environment variable: provider `groq` and the default
/// model when none is stored.
pub fn resolve_ai_settings(
    provider: Option<String>,
    api_key: Option<String>,
    env_api_key: Option<String>,
    model: Option<String>,
) -> (s: AISettings)
    ensures
        s.provider@ == (match opt_str(provider) {
            Some(p) => p,
            None => "groq"@,
        }),
        s.api_key@ == effective_api_key(opt_str(api_key), opt_str(env_api_key)),
        s.model@ == (match opt_str(model) {
            Some(m) => m,
            None => default_model(),
        }),
{
    let provider = match provider {
        Some(p) => p,
        None => String::from_str("groq"),
    };
    let stored_key = match api_key {
        Some(k) => if blank(k.as_str()) {
            None
        } else {
            Some(k)
        },
        None => None,
    };
    let api_key = match stored_key {
        Some(k) => k,
        None => match env_api_key {
            Some(e) => e,
            None => String::new(),
        },
    };
    let model = match model {
        Some(m) => m,
        None => String::from_str("openai/gpt-oss-120b"),
    };
    AISettings { provider, api_key, model }
}

/// The marker that the element picker writes into the page title before the
/// data of the element that was clicked.
pub open spec fn picker_marker() -> Seq<char> {
    "__HALKA_AI_DATA__:"@
}

/// The picker's data carried by a page title: what follows the marker, when
/// the title starts with it; nothing otherwise.
pub fn picked_element_payload(title: &str) -> (r: Option<String>)
    ensures
        r is Some <==> has_prefix(title@, picker_marker()),
        r is Some ==> r->0@ == title@.skip(picker_marker().len() as int),
{
    let marker = "__HALKA_AI_DATA__:";
    if starts_with_str(title, marker) {
        let v = chars_of(title);
        let n = marker.unicode_len();
        Some(string_from_chars(&v, n, v.len()))
    } else {
        None
    }
}

/// The API key in use: a stored key that is not blank; otherwise, when no
/// key or only a blank one is stored, the key from the environment when
/// there is one, and no key when there is none.
pub proof fn law_environment_key_fallback(stored: Option<Seq<char>>, env: Option<Seq<char>>)
    ensures
        stored is Some && !is_blank(stored->0) ==> effective_api_key(stored, env) == stored->0,
        (stored is None || is_blank(stored->0)) && env is Some ==> effective_api_key(stored, env)
            == env->0,
        (stored is None || is_blank(stored->0)) && env is None ==> effective_api_key(stored, env)
            == Seq::<char>::empty(),
{
}

} // verus!
