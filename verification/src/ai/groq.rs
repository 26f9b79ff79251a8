//! The Groq provider's own logic: model choice, the preview system prompt,
//! picking and cutting out the JSON of a reply, and the export fallback.
use vstd::prelude::*;
use crate::ai::AIExportRequest;
use crate::ai::prompt_export::{PromptExporter, export_prompt_text, export_request_ok};
use crate::text::{blank, chars_of, is_blank, opt_str, string_from_chars, trim_str, trimmed};

verus! {

/// The model used when none is configured.
pub open spec fn default_model() -> Seq<char> {
    "openai/gpt-oss-120b"@
}

/// The model that a provider uses: the requested one unless it is missing or blank.
pub open spec fn chosen_model(model: Option<Seq<char>>) -> Seq<char> {
    match model {
        Some(m) => if is_blank(m) {
            default_model()
        } else {
            m
        },
        None => default_model(),
    }
}

/// The error for a preview request without an API key.
pub open spec fn missing_key_message() -> Seq<char> {
    "Groq API key is not configured. Please set your API key in AI Settings."@
}

/// The system prompt of a preview request for `selector`.
pub open spec fn preview_system_prompt(selector: Seq<char>) -> Seq<char> {
    r#"You are an expert CSS & UI/UX design assistant inside Halka Browser's temporary visual sandbox.
Your task is to generate precise CSS rules to visually modify a selected element based on the user's design instruction.

CRITICAL CONSTRAINTS:
1. ONLY return visual CSS properties. NEVER output JavaScript, HTML tags, or external urls.
2. Target the element using its selector ""#@ + selector + r#"" or child/adjacent selectors where relevant.
3. Be subtle, modern, and preserve responsive visual integrity.
4. Output STRICT JSON adhering exactly to this schema:
{
  "summary": "Brief description of the visual changes",
  "css_rules": [
    {
      "selector": ""#@ + selector
        + r#"",
      "properties": {
        "css-property": "value"
      }
    }
  ],
  "explanation": "Brief design rationale"
}
DO NOT include markdown backticks or explanations outside the JSON."#@
}

/// The system prompt of an export request.
pub open spec fn export_system_prompt() -> Seq<char> {
    r#"You are an expert prompt engineer creating instructions for AI coding assistants (like Cursor or GitHub Copilot).
Given an element, its original styles, user intent, and applied preview CSS changes, produce a clean, structured, actionable implementation prompt.
Rules:
- Clearly identify the component/element.
- List exact CSS property changes with before/after context where helpful.
- Note layout, responsiveness, and functional constraints.
- Explicitly state what should NOT be modified.
- Output ONLY the ready-to-paste prompt without conversational filler."#@
}

/// `c` at position `i` of `t`, and nowhere before it.
pub open spec fn is_first_index(t: Seq<char>, c: char, i: int) -> bool {
    0 <= i < t.len() && t[i] == c && forall|j: int| 0 <= j < i ==> t[j] != c
}

/// `c` at position `i` of `t`, and nowhere after it.
pub open spec fn is_last_index(t: Seq<char>, c: char, i: int) -> bool {
    0 <= i < t.len() && t[i] == c && forall|j: int| i < j < t.len() ==> t[j] != c
}

/// The JSON object cut out of a reply: the trimmed text from its first `{`
/// to its last `}`, or the whole trimmed text when there is no such span.
pub open spec fn json_slice(text: Seq<char>) -> Seq<char> {
    let t = trimmed(text);
    if exists|i: int, j: int| is_first_index(t, '{', i) && is_last_index(t, '}', j) && i <= j {
        let (i, j) = choose|i: int, j: int|
            is_first_index(t, '{', i) && is_last_index(t, '}', j) && i <= j;
        t.subrange(i, j + 1)
    } else {
        t
    }
}

/// The reply text used for a preview: the first of content, reasoning
/// content and reasoning that is not blank, or nothing.
pub open spec fn reply_text(
    content: Option<Seq<char>>,
    reasoning_content: Option<Seq<char>>,
    reasoning: Option<Seq<char>>,
) -> Seq<char> {
    if content is Some && !is_blank(content->0) {
        content->0
    } else if reasoning_content is Some && !is_blank(reasoning_content->0) {
        reasoning_content->0
    } else if reasoning is Some && !is_blank(reasoning->0) {
        reasoning->0
    } else {
        Seq::empty()
    }
}

/// The model's reply is used for the export: there is a key and the reply is not blank.
pub open spec fn reply_usable(api_key: Seq<char>, reply: Option<Seq<char>>) -> bool {
    !is_blank(api_key) && reply is Some && !is_blank(reply->0)
}

/// The exported prompt: the model's reply, trimmed, when there is a key and
/// the reply is not blank; otherwise the deterministic prompt.
pub open spec fn export_result(api_key: Seq<char>, reply: Option<Seq<char>>, req: AIExportRequest) -> Seq<
    char,
> {
    if reply_usable(api_key, reply) {
        trimmed(reply->0)
    } else {
        export_prompt_text(req)
    }
}

/// The Groq chat-completion provider: its API key and model.
pub struct GroqProvider {
    api_key: String,
    model: String,
}

impl View for GroqProvider {
    /// The API key and the model.
    type V = (Seq<char>, Seq<char>);

    closed spec fn view(&self) -> (Seq<char>, Seq<char>) {
        (self.api_key@, self.model@)
    }
}

impl GroqProvider {
    /// A provider for `api_key`; a missing or blank model falls back to the default.
    pub fn new(api_key: String, model: Option<String>) -> (p: Self)
        ensures
            p@ == (api_key@, chosen_model(opt_str(model))),
    {
        let selected_model = match model {
            Some(m) => if blank(m.as_str()) {
                String::from_str("openai/gpt-oss-120b")
            } else {
                m
            },
            None => String::from_str("openai/gpt-oss-120b"),
        };
        GroqProvider { api_key, model: selected_model }
    }

    /// The API key.
    pub fn api_key(&self) -> (k: &String)
        ensures
            k@ == self@.0,
    {
        &self.api_key
    }

    /// The model.
    pub fn model(&self) -> (m: &String)
        ensures
            m@ == self@.1,
    {
        &self.model
    }

    /// A preview needs an API key: the error to report when it is blank.
    pub fn check_preview_key(&self) -> (r: Result<(), String>)
        ensures
            r is Ok <==> !is_blank(self@.0),
            r matches Err(e) ==> e@ == missing_key_message(),
    {
        if blank(self.api_key.as_str()) {
            Err(String::from_str("Groq API key is not configured. Please set your API key in AI Settings."))
        } else {
            Ok(())
        }
    }

    /// The system prompt that asks the model for CSS rules for `selector`.
    pub fn build_preview_system_prompt(&self, selector: &str) -> (r: String)
        ensures
            r@ == preview_system_prompt(selector@),
    {
        let mut r = String::from_str(r#"You are an expert CSS & UI/UX design assistant inside Halka Browser's temporary visual sandbox.
Your task is to generate precise CSS rules to visually modify a selected element based on the user's design instruction.

CRITICAL CONSTRAINTS:
1. ONLY return visual CSS properties. NEVER output JavaScript, HTML tags, or external urls.
2. Target the element using its selector ""#);
        r.append(selector);
        r.append(r#"" or child/adjacent selectors where relevant.
3. Be subtle, modern, and preserve responsive visual integrity.
4. Output STRICT JSON adhering exactly to this schema:
{
  "summary": "Brief description of the visual changes",
  "css_rules": [
    {
      "selector": ""#);
        r.append(selector);
        r.append(r#"",
      "properties": {
        "css-property": "value"
      }
    }
  ],
  "explanation": "Brief design rationale"
}
DO NOT include markdown backticks or explanations outside the JSON."#);
        r
    }

    /// The system prompt that asks the model for an implementation prompt.
    pub fn build_export_system_prompt() -> (r: String)
        ensures
            r@ == export_system_prompt(),
    {
        String::from_str(r#"You are an expert prompt engineer creating instructions for AI coding assistants (like Cursor or GitHub Copilot).
Given an element, its original styles, user intent, and applied preview CSS changes, produce a clean, structured, actionable implementation prompt.
Rules:
- Clearly identify the component/element.
- List exact CSS property changes with before/after context where helpful.
- Note layout, responsiveness, and functional constraints.
- Explicitly state what should NOT be modified.
- Output ONLY the ready-to-paste prompt without conversational filler."#)
    }

    /// Extracts the JSON object `{ ... }` from a reply.
    pub fn extract_json_slice(text: &str) -> (r: String)
        ensures
            r@ == json_slice(text@),
    {
        let t = trim_str(text);
        let v = chars_of(t.as_str());
        let n = v.len();
        let mut i: usize = 0;
        while i < n && v[i] != '{'
            invariant
                i <= n == v.len(),
                forall|j: int| 0 <= j < i ==> v@[j] != '{',
            decreases n - i,
        {
            i = i + 1;
        }
        let mut j: usize = n;
        while j > 0 && v[j - 1] != '}'
            invariant
                j <= n == v.len(),
                forall|k: int| j <= k < n ==> v@[k] != '}',
            decreases j,
        {
            j = j - 1;
        }
        if i < n && j > 0 && i <= j - 1 {
            proof {
                assert(is_first_index(v@, '{', i as int));
                assert(is_last_index(v@, '}', j - 1));
                let (a, b) = choose|a: int, b: int|
                    is_first_index(v@, '{', a) && is_last_index(v@, '}', b) && a <= b;
                assert(a == i) by {
                    if a < i {
                    } else if a > i {
                    }
                }
                assert(b == j - 1) by {
                    if b < j - 1 {
                    } else if b > j - 1 {
                    }
                }
            }
            string_from_chars(&v, i, j)
        } else {
            proof {
                assert forall|a: int, b: int|
                    !(is_first_index(v@, '{', a) && is_last_index(v@, '}', b) && a <= b) by {
                    if is_first_index(v@, '{', a) && is_last_index(v@, '}', b) && a <= b {
                        if i < n {
                            assert(a == i);
                        }
                        if j > 0 {
                            assert(b == j - 1);
                        }
                    }
                }
            }
            t
        }
    }

    /// The reply text to read a preview from.
    pub fn select_reply_text(
        content: Option<String>,
        reasoning_content: Option<String>,
        reasoning: Option<String>,
    ) -> (r: String)
        ensures
            r@ == reply_text(opt_str(content), opt_str(reasoning_content), opt_str(reasoning)),
    {
        match content {
            Some(c) => if !blank(c.as_str()) {
                return c;
            },
            None => {},
        }
        match reasoning_content {
            Some(c) => if !blank(c.as_str()) {
                return c;
            },
            None => {},
        }
        match reasoning {
            Some(c) => if !blank(c.as_str()) {
                return c;
            },
            None => {},
        }
        String::new()
    }

    /// Whether an export uses this reply rather than the local prompt.
    pub fn uses_reply(&self, reply: &Option<String>) -> (r: bool)
        ensures
            r == reply_usable(self@.0, opt_str(*reply)),
    {
        if blank(self.api_key.as_str()) {
            return false;
        }
        match reply {
            Some(c) => !blank(c.as_str()),
            None => false,
        }
    }

    /// The exported prompt, given the model's reply (none when there is no
    /// key, the request failed or the reply had no content). The local prompt
    /// is built only when the reply is not used, and only then must the
    /// request's text be cuttable.
    pub fn export_prompt_from_reply(&self, reply: Option<String>, req: &AIExportRequest) -> (r:
        String)
        requires
            !reply_usable(self@.0, opt_str(reply)) ==> export_request_ok(*req),
        ensures
            r@ == export_result(self@.0, opt_str(reply), *req),
    {
        if !blank(self.api_key.as_str()) {
            match reply {
                Some(c) => if !blank(c.as_str()) {
                    return trim_str(c.as_str());
                },
                None => {},
            }
        }
        PromptExporter::generate_export_prompt(req)
    }
}

} // verus!
