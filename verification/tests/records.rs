use halka_browser::ai::groq::GroqProvider;
use halka_browser::ai::preview_history::PreviewHistory;
use halka_browser::ai::validator::AICssRule;
use halka_browser::ai::{create_ai_provider, resolve_ai_settings, AISettings};
use halka_browser::browser_core::bookmarks::{BookmarkEntry, BookmarksManager};
use halka_browser::browser_core::downloads::DownloadManager;
use halka_browser::browser_core::history::{HistoryEntry, HistoryManager};
use halka_browser::browser_core::settings::{SettingLookup, SettingsManager};
use halka_browser::kv_map::StringMap;

fn rule(sel: &str) -> AICssRule {
    let mut p = StringMap::new();
    p.insert("color".to_string(), "red".to_string());
    AICssRule { selector: sel.to_string(), properties: p }
}

fn selectors(rules: &Option<Vec<AICssRule>>) -> Option<Vec<String>> {
    rules.as_ref().map(|v| v.iter().map(|r| r.selector.clone()).collect())
}

#[test]
fn undo_returns_the_previous_preview() {
    let mut h = PreviewHistory::new();
    h.record("tab_1", vec![rule("a")]);
    h.record("tab_1", vec![rule("b")]);
    h.record("tab_2", vec![rule("z")]);
    assert_eq!(selectors(&h.undo("tab_1")), Some(vec!["a".to_string()]));
    assert_eq!(selectors(&h.undo("tab_1")), None);
    assert_eq!(selectors(&h.undo("tab_1")), None);
    assert_eq!(selectors(&h.undo("tab_3")), None);
    h.record("tab_2", vec![rule("y")]);
    h.reset("tab_2");
    assert_eq!(selectors(&h.undo("tab_2")), None);
}

#[test]
fn downloads_are_listed_in_order() {
    let mut m = DownloadManager::new();
    let d = m.add_download_at("f.zip".to_string(), "https://x/f.zip".to_string(), "/tmp/f.zip".to_string(), 10, 1700000000123);
    assert_eq!(d.id, "dl_1700000000123");
    assert_eq!(d.state, "completed");
    assert_eq!(d.downloaded_bytes, 0);
    let e = m.add_download_at("g".to_string(), "u".to_string(), "p".to_string(), 0, -5);
    assert_eq!(e.id, "dl_-5");
    let live = m.add_download("h".to_string(), "v".to_string(), "q".to_string(), 3);
    assert!(live.id.starts_with("dl_"));
    assert!(live.id.len() > 3);
    let all = m.get_downloads();
    assert_eq!(all.len(), 3);
    assert_eq!(all[0].filename, "f.zip");
    assert_eq!(all[1].id, "dl_-5");
    assert_eq!(all[2].total_bytes, 3);
}

#[test]
fn unreadable_rows_are_skipped() {
    let entry = |id: i64| HistoryEntry {
        id,
        url: format!("https://{}/", id),
        title: String::new(),
        visited_at: "t".to_string(),
    };
    let h = HistoryManager::get_history(vec![Some(entry(3)), None, Some(entry(1))]);
    assert_eq!(h.iter().map(|e| e.id).collect::<Vec<_>>(), vec![3, 1]);
    let b = BookmarksManager::get_bookmarks(vec![
        None,
        Some(BookmarkEntry {
            id: 2,
            url: "u".to_string(),
            title: "t".to_string(),
            favicon: None,
            created_at: "c".to_string(),
        }),
    ]);
    assert_eq!(b.len(), 1);
    assert_eq!(b[0].id, 2);
}

#[test]
fn bookmark_count_decides() {
    assert!(BookmarksManager::is_bookmarked(Some(1)));
    assert!(!BookmarksManager::is_bookmarked(Some(0)));
    assert!(!BookmarksManager::is_bookmarked(None));
}

#[test]
fn settings_lookup_and_rows() {
    assert_eq!(
        SettingsManager::get_setting(SettingLookup::Found("x".to_string())),
        Ok(Some("x".to_string()))
    );
    assert_eq!(SettingsManager::get_setting(SettingLookup::Missing), Ok(None));
    assert_eq!(
        SettingsManager::get_setting(SettingLookup::Failed("boom".to_string())),
        Err("boom".to_string())
    );
    let m = SettingsManager::get_all_settings(vec![
        Some(("home_page".to_string(), "a".to_string())),
        None,
        Some(("zoom".to_string(), "100".to_string())),
        Some(("home_page".to_string(), "b".to_string())),
    ]);
    assert_eq!(m.len(), 2);
    assert_eq!(m.get("home_page").cloned(), Some("b".to_string()));
    assert_eq!(m.get("zoom").cloned(), Some("100".to_string()));
}

#[test]
fn ai_settings_resolution() {
    let d = AISettings::default();
    assert_eq!(d.provider, "groq");
    assert_eq!(d.api_key, "");
    assert_eq!(d.model, "openai/gpt-oss-120b");
    let s = resolve_ai_settings(None, Some("  ".to_string()), Some("env".to_string()), None);
    assert_eq!(s.provider, "groq");
    assert_eq!(s.api_key, "env");
    assert_eq!(s.model, "openai/gpt-oss-120b");
    let s = resolve_ai_settings(Some("other".to_string()), Some("k".to_string()), Some("env".to_string()), Some("m".to_string()));
    assert_eq!((s.provider.as_str(), s.api_key.as_str(), s.model.as_str()), ("other", "k", "m"));
    let s = resolve_ai_settings(None, None, None, None);
    assert_eq!(s.api_key, "");
}

#[test]
fn provider_model_and_key() {
    let p = GroqProvider::new("k".to_string(), Some("  ".to_string()));
    assert_eq!(p.model(), "openai/gpt-oss-120b");
    assert!(p.check_preview_key().is_ok());
    let q = GroqProvider::new(" ".to_string(), Some("llama".to_string()));
    assert_eq!(q.model(), "llama");
    assert_eq!(
        q.check_preview_key().err(),
        Some("Groq API key is not configured. Please set your API key in AI Settings.".to_string())
    );
    let settings = AISettings {
        provider: "whatever".to_string(),
        api_key: "key".to_string(),
        model: "m1".to_string(),
    };
    let r = create_ai_provider(&settings);
    assert_eq!(r.api_key(), "key");
    assert_eq!(r.model(), "m1");
}

#[test]
fn reply_text_and_json_slice() {
    assert_eq!(
        GroqProvider::select_reply_text(Some(" ".to_string()), None, Some("r".to_string())),
        "r"
    );
    assert_eq!(
        GroqProvider::select_reply_text(Some("c".to_string()), Some("rc".to_string()), None),
        "c"
    );
    assert_eq!(GroqProvider::select_reply_text(None, None, None), "");
    assert_eq!(
        GroqProvider::extract_json_slice("  Here: {\"a\": {\"b\": 1}} done "),
        "{\"a\": {\"b\": 1}}"
    );
    assert_eq!(GroqProvider::extract_json_slice(" no json "), "no json");
    assert_eq!(GroqProvider::extract_json_slice("} before {"), "} before {");
}

#[test]
fn system_prompt_names_the_selector() {
    let p = GroqProvider::new("k".to_string(), None);
    let s = p.build_preview_system_prompt("#buy");
    assert!(s.starts_with("You are an expert CSS & UI/UX design assistant"));
    assert!(s.contains("Target the element using its selector \"#buy\" or child"));
    assert!(s.contains("      \"selector\": \"#buy\",\n      \"properties\": {"));
    assert!(s.ends_with("DO NOT include markdown backticks or explanations outside the JSON."));
}
