use halka_browser::browser_core::tab_manager::{after_close, AfterClose, TabData, TabManager};

fn ids(m: &TabManager) -> Vec<String> {
    m.get_tabs_list().into_iter().map(|t| t.id).collect()
}

fn active_flags(m: &TabManager) -> Vec<bool> {
    m.get_tabs_list().into_iter().map(|t: TabData| t.active).collect()
}

#[test]
fn new_manager_is_empty() {
    let m = TabManager::new();
    assert_eq!(m.tab_count(), 0);
    assert!(m.get_tabs_list().is_empty());
    assert_eq!(m.active_tab_id(), None);
}

#[test]
fn created_tabs_are_numbered_and_the_newest_is_active() {
    let mut m = TabManager::new();
    let (id1, t1) = m.create_tab("https://a.example/".to_string(), None);
    assert_eq!(id1, "tab_1");
    assert_eq!(t1.title, "New Tab");
    assert!(t1.active);
    let (id2, t2) = m.create_tab("https://b.example/".to_string(), Some("B".to_string()));
    assert_eq!(id2, "tab_2");
    assert_eq!(t2.title, "B");
    assert_eq!(t2.url, "https://b.example/");
    assert_eq!(ids(&m), vec!["tab_1", "tab_2"]);
    assert_eq!(active_flags(&m), vec![false, true]);
    assert_eq!(m.active_tab_id(), Some("tab_2".to_string()));
    assert_eq!(m.tab_count(), 2);
}

#[test]
fn switching_marks_exactly_one_tab_active() {
    let mut m = TabManager::new();
    m.create_tab("a".to_string(), None);
    m.create_tab("b".to_string(), None);
    m.create_tab("c".to_string(), None);
    assert!(m.switch_tab("tab_1"));
    assert_eq!(active_flags(&m), vec![true, false, false]);
    assert_eq!(m.active_tab_id(), Some("tab_1".to_string()));
    assert!(!m.switch_tab("tab_9"));
    assert!(!m.switch_tab("tab_01"));
    assert!(!m.switch_tab("tab_"));
    assert!(!m.switch_tab("1"));
    assert_eq!(m.active_tab_id(), Some("tab_1".to_string()));
}

#[test]
fn closing_the_active_tab_activates_the_last_one() {
    let mut m = TabManager::new();
    m.create_tab("a".to_string(), None);
    m.create_tab("b".to_string(), None);
    m.create_tab("c".to_string(), None);
    m.switch_tab("tab_2");
    let (url, active) = m.close_tab("tab_2");
    assert_eq!(url, Some("b".to_string()));
    assert_eq!(active, Some("tab_3".to_string()));
    assert_eq!(ids(&m), vec!["tab_1", "tab_3"]);
    assert_eq!(active_flags(&m), vec![false, true]);
}

#[test]
fn closing_another_tab_keeps_the_active_one() {
    let mut m = TabManager::new();
    m.create_tab("a".to_string(), None);
    m.create_tab("b".to_string(), None);
    let (url, active) = m.close_tab("tab_1");
    assert_eq!(url, Some("a".to_string()));
    assert_eq!(active, Some("tab_2".to_string()));
    assert_eq!(m.tab_count(), 1);
}

#[test]
fn closing_the_last_tab_leaves_none_active() {
    let mut m = TabManager::new();
    m.create_tab("a".to_string(), None);
    assert_eq!(m.close_tab("tab_1"), (Some("a".to_string()), None));
    assert_eq!(m.active_tab_id(), None);
    assert_eq!(m.tab_count(), 0);
}

#[test]
fn closing_an_unknown_tab_changes_nothing() {
    let mut m = TabManager::new();
    m.create_tab("a".to_string(), None);
    assert_eq!(m.close_tab("tab_7"), (None, Some("tab_1".to_string())));
    assert_eq!(m.tab_count(), 1);
    assert_eq!(m.pop_closed_url(), None);
}

#[test]
fn reopen_pops_closed_urls_newest_first() {
    let mut m = TabManager::new();
    m.create_tab("a".to_string(), None);
    m.create_tab("b".to_string(), None);
    m.close_tab("tab_1");
    m.close_tab("tab_2");
    assert_eq!(m.pop_closed_url(), Some("b".to_string()));
    assert_eq!(m.pop_closed_url(), Some("a".to_string()));
    assert_eq!(m.pop_closed_url(), None);
}

#[test]
fn ids_are_not_reused_after_closing() {
    let mut m = TabManager::new();
    m.create_tab("a".to_string(), None);
    m.close_tab("tab_1");
    let (id, _) = m.create_tab("b".to_string(), None);
    assert_eq!(id, "tab_2");
}

#[test]
fn update_changes_only_given_fields() {
    let mut m = TabManager::new();
    m.create_tab("a".to_string(), Some("A".to_string()));
    m.update_tab("tab_1", Some("Title".to_string()), None);
    let t = &m.get_tabs_list()[0];
    assert_eq!(t.title, "Title");
    assert_eq!(t.url, "a");
    m.update_tab("tab_1", None, Some("https://x/".to_string()));
    let t = &m.get_tabs_list()[0];
    assert_eq!(t.title, "Title");
    assert_eq!(t.url, "https://x/");
    m.update_tab("tab_5", Some("nope".to_string()), None);
    assert_eq!(m.get_tabs_list()[0].title, "Title");
}

#[test]
fn tab_list_stays_in_creation_order_through_every_operation() {
    let mut m = TabManager::new();
    m.create_tab("https://a.example/".to_string(), None);
    m.create_tab("https://b.example/".to_string(), None);
    m.create_tab("https://c.example/".to_string(), None);
    assert!(m.switch_tab("tab_1"));
    assert_eq!(active_flags(&m), vec![true, false, false]);
    m.update_tab("tab_2", Some("Bee".to_string()), None);
    m.update_tab("tab_9", Some("none".to_string()), None);
    let (url, act) = m.close_tab("tab_1");
    assert_eq!(url.as_deref(), Some("https://a.example/"));
    assert_eq!(act.as_deref(), Some("tab_3"));
    assert_eq!(ids(&m), vec!["tab_2", "tab_3"]);
    assert_eq!(active_flags(&m), vec![false, true]);
    m.create_tab("https://d.example/".to_string(), None);
    assert_eq!(ids(&m), vec!["tab_2", "tab_3", "tab_4"]);
    let list = m.get_tabs_list();
    assert_eq!(list[0].title, "Bee");
    assert_eq!(list[0].url, "https://b.example/");
    assert_eq!(m.pop_closed_url().as_deref(), Some("https://a.example/"));
    assert_eq!(m.tab_count(), 3);
}

#[test]
fn after_closing_show_the_active_tab_or_open_home() {
    let mut m = TabManager::new();
    m.create_tab("https://a.example/".to_string(), None);
    m.create_tab("https://b.example/".to_string(), None);
    let (_, act) = m.close_tab("tab_2");
    assert!(matches!(after_close(act), AfterClose::Show(id) if id == "tab_1"));
    let (_, act) = m.close_tab("tab_1");
    assert!(matches!(after_close(act), AfterClose::OpenNew(u) if u == "https://www.google.com"));
}
