use halka_browser::ai::groq::GroqProvider;
use halka_browser::ai::prompt_export::PromptExporter;
use halka_browser::ai::validator::AICssRule;
use halka_browser::ai::{picked_element_payload, AIExportRequest, ElementContext};
use halka_browser::kv_map::StringMap;

fn element(text: Option<String>, classes: Vec<String>, id: Option<String>) -> ElementContext {
    let mut computed = StringMap::new();
    computed.insert("border-radius".to_string(), "4px".to_string());
    computed.insert("padding".to_string(), "8px 16px".to_string());
    ElementContext {
        tag: "button".to_string(),
        id,
        classes,
        attributes: StringMap::new(),
        text,
        selector: "#checkout-btn".to_string(),
        computed_styles: computed,
        parent_context: None,
        grandparent_context: None,
    }
}

#[test]
fn test_export_prompt_generation() {
    let mut computed = StringMap::new();
    computed.insert("border-radius".to_string(), "4px".to_string());
    computed.insert("padding".to_string(), "8px 16px".to_string());

    let el = ElementContext {
        tag: "button".to_string(),
        id: Some("checkout-btn".to_string()),
        classes: vec!["btn".to_string(), "btn-primary".to_string()],
        attributes: StringMap::new(),
        text: Some("Checkout Now".to_string()),
        selector: "#checkout-btn".to_string(),
        computed_styles: computed,
        parent_context: None,
        grandparent_context: None,
    };

    let mut applied_props = StringMap::new();
    applied_props.insert("border-radius".to_string(), "12px".to_string());
    applied_props.insert("transform".to_string(), "translateX(10px)".to_string());

    let req = AIExportRequest {
        instruction: "Make button modern with rounded corners and move right".to_string(),
        element_context: el,
        applied_css_rules: vec![AICssRule {
            selector: "#checkout-btn".to_string(),
            properties: applied_props,
        }],
    };

    let prompt = PromptExporter::generate_export_prompt(&req);
    assert!(prompt.contains("Target Component / Element"));
    assert!(prompt.contains("Set `border-radius` to `12px` (previously `4px`)"));
    assert!(prompt.contains("Set `transform` to `translateX(10px)`"));
    assert!(prompt.contains("Preserve all existing functionality"));
}

#[test]
fn prompt_exact_text() {
    let mut applied = StringMap::new();
    applied.insert("padding".to_string(), "8px 16px".to_string());
    applied.insert("color".to_string(), "red".to_string());
    let req = AIExportRequest {
        instruction: "  ".to_string(),
        element_context: element(
            Some("Buy".to_string()),
            vec!["a".to_string(), "b".to_string(), "c".to_string()],
            None,
        ),
        applied_css_rules: vec![AICssRule {
            selector: ".child".to_string(),
            properties: applied,
        }],
    };
    let expected = "Please implement the following visual design updates to `#checkout-btn`.\n\n\
### Target Component / Element\n\
- **Selector**: `#checkout-btn`\n\
- **Tag**: `<button>`\n\
- **Classes**: `.a .b .c`\n\
- **Text content**: \"Buy\"\n\
\n\
### Required CSS Changes\n\
For `.child`:\n\
- Set `padding` to `8px 16px`\n\
- Set `color` to `red`\n\
\n\
### Constraints & Guidelines\n\
- Preserve all existing functionality, event handlers, and business logic.\n\
- Ensure the modified component remains responsive across desktop and mobile screens.\n\
- Maintain existing theme variables and color palettes where applicable.\n\
- Do not alter unrelated sibling or parent elements.\n";
    assert_eq!(PromptExporter::generate_export_prompt(&req), expected);
}

#[test]
fn prompt_without_changes_says_so() {
    let req = AIExportRequest {
        instruction: " Be bold ".to_string(),
        element_context: element(None, vec![], Some("x".to_string())),
        applied_css_rules: vec![],
    };
    let prompt = PromptExporter::generate_export_prompt(&req);
    assert!(prompt.contains("**Design Goal**: Be bold\n\n"));
    assert!(prompt.contains("- **ID**: `#x`\n"));
    assert!(!prompt.contains("Classes"));
    assert!(!prompt.contains("Text content"));
    assert!(prompt.contains("*(No CSS modifications were applied in preview)*\n\n"));
}

#[test]
fn long_text_is_cut_after_sixty_bytes() {
    let text = "x".repeat(70);
    let req = AIExportRequest {
        instruction: String::new(),
        element_context: element(Some(text), vec![], None),
        applied_css_rules: vec![],
    };
    let prompt = PromptExporter::generate_export_prompt(&req);
    assert!(prompt.contains(&format!("- **Text content**: \"{}...\"\n", "x".repeat(60))));
    let exact = "y".repeat(60);
    let req2 = AIExportRequest {
        instruction: String::new(),
        element_context: element(Some(exact.clone()), vec![], None),
        applied_css_rules: vec![],
    };
    assert!(PromptExporter::generate_export_prompt(&req2)
        .contains(&format!("- **Text content**: \"{}\"\n", exact)));
}

#[test]
fn export_prefers_a_non_blank_reply() {
    let req = AIExportRequest {
        instruction: String::new(),
        element_context: element(None, vec![], None),
        applied_css_rules: vec![],
    };
    let with_key = GroqProvider::new("key".to_string(), None);
    assert_eq!(
        with_key.export_prompt_from_reply(Some("  refined prompt \n".to_string()), &req),
        "refined prompt"
    );
    let fallback = PromptExporter::generate_export_prompt(&req);
    assert_eq!(with_key.export_prompt_from_reply(Some("   ".to_string()), &req), fallback);
    assert_eq!(with_key.export_prompt_from_reply(None, &req), fallback);
    let without_key = GroqProvider::new(" ".to_string(), None);
    assert_eq!(
        without_key.export_prompt_from_reply(Some("reply".to_string()), &req),
        fallback
    );
}

#[test]
fn picker_title_carries_payload() {
    assert_eq!(
        picked_element_payload("__HALKA_AI_DATA__:{\"tag\":\"button\"}"),
        Some("{\"tag\":\"button\"}".to_string())
    );
    assert_eq!(picked_element_payload("__HALKA_AI_DATA__:"), Some(String::new()));
    assert_eq!(picked_element_payload("Google"), None);
    assert_eq!(picked_element_payload("x__HALKA_AI_DATA__:{}"), None);
}

#[test]
fn usable_reply_is_returned_even_for_uncuttable_text() {
    // 59 ASCII bytes then a two-byte character: byte 60 falls inside it.
    let text = format!("{}é and more", "a".repeat(59));
    let req = AIExportRequest {
        instruction: "Round it".to_string(),
        element_context: element(Some(text), vec![], None),
        applied_css_rules: vec![],
    };
    let p = GroqProvider::new("key".to_string(), None);
    assert!(p.uses_reply(&Some(" done ".to_string())));
    assert!(!p.uses_reply(&Some("  ".to_string())));
    assert!(!p.uses_reply(&None));
    assert!(!GroqProvider::new("".to_string(), None).uses_reply(&Some("x".to_string())));
    assert_eq!(p.export_prompt_from_reply(Some(" done ".to_string()), &req), "done");
}

#[test]
fn export_system_prompt_text() {
    let s = GroqProvider::build_export_system_prompt();
    assert!(s.starts_with("You are an expert prompt engineer creating instructions for AI coding assistants"));
    assert!(s.ends_with("- Output ONLY the ready-to-paste prompt without conversational filler."));
}
