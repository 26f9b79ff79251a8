use halka_browser::ai::validator::{AICssRule, AIPreviewResponse, CssValidator};
use halka_browser::kv_map::StringMap;

fn props(pairs: &[(&str, &str)]) -> StringMap {
    let mut m = StringMap::new();
    for (k, v) in pairs {
        m.insert(k.to_string(), v.to_string());
    }
    m
}

#[test]
fn test_safe_rules() {
    let mut props = StringMap::new();
    props.insert("border-radius".to_string(), "12px".to_string());
    props.insert("background-color".to_string(), "#3b82f6".to_string());
    props.insert("transform".to_string(), "translateX(10px)".to_string());

    let response = AIPreviewResponse {
        summary: "Modernized button".to_string(),
        css_rules: vec![AICssRule {
            selector: "#checkout-btn".to_string(),
            properties: props,
        }],
        explanation: None,
    };

    let validated = CssValidator::sanitize_response(response).expect("Should pass validation");
    assert_eq!(validated.css_rules.len(), 1);
    let compiled = CssValidator::compile_to_stylesheet(&validated.css_rules);
    assert!(compiled.contains("border-radius: 12px !important;"));
    assert!(compiled.contains("transform: translateX(10px) !important;"));
}

#[test]
fn test_rejects_dangerous_javascript() {
    let mut props = StringMap::new();
    props.insert("background".to_string(), "javascript:alert(1)".to_string());
    props.insert("behavior".to_string(), "url(exploit.htc)".to_string());

    let sanitized = CssValidator::sanitize_properties(&props).unwrap();
    assert!(sanitized.is_empty());
}

#[test]
fn test_rejects_selector_breakout() {
    assert!(CssValidator::sanitize_selector("div { color: red }").is_err());
    assert!(CssValidator::sanitize_selector("button; @import 'evil'").is_err());
    assert!(CssValidator::sanitize_selector("button#id.class").is_ok());
    assert!(CssValidator::sanitize_selector("header > nav > button.btn").is_ok());
    assert!(CssValidator::sanitize_selector("div.container > div:nth-child(2)").is_ok());
}

#[test]
fn selector_is_trimmed() {
    assert_eq!(
        CssValidator::sanitize_selector("  \t.card \n").ok(),
        Some(".card".to_string())
    );
}

#[test]
fn selector_errors_name_the_first_forbidden_character() {
    assert_eq!(
        CssValidator::sanitize_selector("a@b{").err(),
        Some("Forbidden character '{' in selector".to_string())
    );
    assert_eq!(
        CssValidator::sanitize_selector("a\\b").err(),
        Some("Forbidden character '\\' in selector".to_string())
    );
    assert_eq!(
        CssValidator::sanitize_selector("div < p").err(),
        Some("Forbidden character '<' in selector".to_string())
    );
}

#[test]
fn empty_selector_is_refused() {
    assert_eq!(
        CssValidator::sanitize_selector("   ").err(),
        Some("Empty selector".to_string())
    );
}

#[test]
fn selector_length_limit_counts_bytes() {
    let ok = "a".repeat(300);
    assert_eq!(CssValidator::sanitize_selector(&ok).ok(), Some(ok.clone()));
    let too_long = "a".repeat(301);
    assert_eq!(
        CssValidator::sanitize_selector(&too_long).err(),
        Some("Selector exceeds maximum allowed length".to_string())
    );
    // 150 two-byte characters are 300 bytes; one more byte is too many.
    let wide = "é".repeat(150);
    assert!(CssValidator::sanitize_selector(&wide).is_ok());
    let wider = format!("{}a", wide);
    assert!(CssValidator::sanitize_selector(&wider).is_err());
}

#[test]
fn properties_are_normalised() {
    let p = props(&[
        ("  Color ", "  red;;  "),
        ("margin", "0 !important"),
        ("padding", "   "),
        ("content-visibility", "auto"),
        ("width", "URL(x.png)"),
    ]);
    let s = CssValidator::sanitize_properties(&p).ok().unwrap();
    assert_eq!(s.len(), 2);
    assert_eq!(s.get("color").cloned(), Some("red".to_string()));
    assert_eq!(s.get("margin").cloned(), Some("0".to_string()));
    assert!(s.get("padding").is_none());
    assert!(s.get("content-visibility").is_none());
    assert!(s.get("width").is_none());
}

#[test]
fn later_declaration_of_same_name_wins() {
    let p = props(&[("Color", "red"), ("color", "blue")]);
    let s = CssValidator::sanitize_properties(&p).ok().unwrap();
    assert_eq!(s.len(), 1);
    assert_eq!(s.get("color").cloned(), Some("blue".to_string()));
}

#[test]
fn empty_response_is_refused() {
    let response = AIPreviewResponse {
        summary: "nothing".to_string(),
        css_rules: vec![],
        explanation: None,
    };
    assert_eq!(
        CssValidator::sanitize_response(response).err(),
        Some("AI response contains no CSS rules".to_string())
    );
}

#[test]
fn response_without_safe_declarations_is_refused() {
    let response = AIPreviewResponse {
        summary: "unsafe".to_string(),
        css_rules: vec![AICssRule {
            selector: "div".to_string(),
            properties: props(&[("background", "url(evil.png)")]),
        }],
        explanation: Some("why".to_string()),
    };
    assert_eq!(
        CssValidator::sanitize_response(response).err(),
        Some("No valid, safe CSS properties found in AI response".to_string())
    );
}

#[test]
fn response_with_bad_selector_is_refused() {
    let response = AIPreviewResponse {
        summary: "bad".to_string(),
        css_rules: vec![
            AICssRule {
                selector: "p".to_string(),
                properties: props(&[("color", "red")]),
            },
            AICssRule {
                selector: "p}".to_string(),
                properties: props(&[("color", "red")]),
            },
        ],
        explanation: None,
    };
    assert_eq!(
        CssValidator::sanitize_response(response).err(),
        Some("Forbidden character '}' in selector".to_string())
    );
}

#[test]
fn rules_left_empty_are_dropped_and_rest_kept() {
    let response = AIPreviewResponse {
        summary: "mixed".to_string(),
        css_rules: vec![
            AICssRule {
                selector: " h1 ".to_string(),
                properties: props(&[("font-size", "2rem")]),
            },
            AICssRule {
                selector: "h2".to_string(),
                properties: props(&[("behavior", "x")]),
            },
        ],
        explanation: Some("e".to_string()),
    };
    let out = CssValidator::sanitize_response(response).ok().unwrap();
    assert_eq!(out.summary, "mixed");
    assert_eq!(out.explanation, Some("e".to_string()));
    assert_eq!(out.css_rules.len(), 1);
    assert_eq!(out.css_rules[0].selector, "h1");
}

#[test]
fn stylesheet_exact_text() {
    let rules = vec![
        AICssRule {
            selector: "a".to_string(),
            properties: props(&[("color", "red"), ("margin", "0")]),
        },
        AICssRule {
            selector: "b".to_string(),
            properties: props(&[]),
        },
    ];
    assert_eq!(
        CssValidator::compile_to_stylesheet(&rules),
        "/* Halka AI Preview Mode - Temporary Sandbox Styles */\na {\n  color: red !important;\n  margin: 0 !important;\n}\n\nb {\n}\n\n"
    );
    assert_eq!(
        CssValidator::compile_to_stylesheet(&[]),
        "/* Halka AI Preview Mode - Temporary Sandbox Styles */\n"
    );
}

#[test]
fn keyword_assembled_by_removing_important_is_dropped() {
    let p = props(&[
        ("background", "ur!importantl(x)"),
        ("color", "java!importantscript:alert(1)"),
        ("margin", "2px !important"),
    ]);
    let s = CssValidator::sanitize_properties(&p).ok().unwrap();
    assert_eq!(s.len(), 1);
    assert!(s.get("background").is_none());
    assert!(s.get("color").is_none());
    assert_eq!(s.get("margin").cloned(), Some("2px".to_string()));
}
