//! Tabs of the browser window: their order, which one is active, and the
//! stack of recently closed URLs that "reopen closed tab" pops.
use vstd::prelude::*;
use std::collections::HashMap;
use crate::browser_core::navigation::home_url;
use crate::text::{
    chars_of, decimal, lemma_decimal_injective, opt_str, parse_decimal_suffix, push_decimal,
};

verus! {

broadcast use vstd::std_specs::hash::group_hash_axioms;

/// One tab as the user interface sees it.
pub struct TabData {
    pub id: String,
    pub title: String,
    pub url: String,
    pub active: bool,
}

/// The contents of a `TabData`.
pub ghost struct TabView {
    pub id: Seq<char>,
    pub title: Seq<char>,
    pub url: Seq<char>,
    pub active: bool,
}

impl View for TabData {
    type V = TabView;

    open spec fn view(&self) -> TabView {
        TabView { id: self.id@, title: self.title@, url: self.url@, active: self.active }
    }
}

/// The state of a `TabManager`: tabs by number, their order, the active
/// tab's number, the closed URLs (most recent last) and the next number.
pub ghost struct TabsView {
    pub tabs: Map<u64, TabView>,
    pub order: Seq<u64>,
    pub active: Option<u64>,
    pub closed: Seq<Seq<char>>,
    pub next_id: u64,
}

/// The id of the tab with number `n`: `tab_` followed by `n` in decimal.
pub open spec fn tab_id_of(n: u64) -> Seq<char> {
    seq!['t', 'a', 'b', '_'] + decimal(n as nat)
}

/// The optional id of an optional tab number.
pub open spec fn opt_tab_id(a: Option<u64>) -> Option<Seq<char>> {
    match a {
        Some(n) => Some(tab_id_of(n)),
        None => None,
    }
}

/// Tab number `n` exists and is called `id`.
pub open spec fn names_tab(v: TabsView, id: Seq<char>, n: u64) -> bool {
    v.tabs.contains_key(n) && tab_id_of(n) == id
}

/// Some tab is called `id`.
pub open spec fn has_tab(v: TabsView, id: Seq<char>) -> bool {
    exists|n: u64| names_tab(v, id, n)
}

/// The number of the tab called `id` (meaningful when `has_tab`).
pub open spec fn tab_named(v: TabsView, id: Seq<char>) -> u64 {
    choose|n: u64| names_tab(v, id, n)
}

/// The invariant of the tab state: the tab map and the order hold the same
/// tabs, each once; each tab's id is `tab_` and its number, which is below
/// `next_id`; the active number names an existing tab, and there is one
/// exactly when there are tabs; a tab's `active` flag is set exactly when it
/// is the active one; and the order is the order of creation, numbers
/// increasing.
pub open spec fn tabs_wf(v: TabsView) -> bool {
    &&& v.order.no_duplicates()
    &&& increasing(v.order)
    &&& forall|n: u64| #[trigger] v.tabs.contains_key(n) <==> v.order.contains(n)
    &&& forall|n: u64| #[trigger]
        v.tabs.contains_key(n) ==> v.tabs[n].id == tab_id_of(n) && 1 <= n < v.next_id
    &&& (v.active is None <==> v.order.len() == 0)
    &&& (v.active matches Some(a) ==> v.tabs.contains_key(a))
    &&& forall|n: u64| #[trigger]
        v.tabs.contains_key(n) ==> (v.tabs[n].active <==> v.active == Some(n))
    &&& v.next_id >= 1
}

/// Each number in `s` is larger than the ones before it.
pub open spec fn increasing(s: Seq<u64>) -> bool {
    forall|i: int, j: int| 0 <= i < j < s.len() ==> #[trigger] s[i] < #[trigger] s[j]
}

/// The tab `t` with its `active` flag set to `b`.
pub open spec fn with_active(t: TabView, b: bool) -> TabView {
    TabView { id: t.id, title: t.title, url: t.url, active: b }
}

/// The title given to a tab created without one.
pub open spec fn default_title() -> Seq<char> {
    "New Tab"@
}

/// `create_tab`: the new state and the new tab.
pub open spec fn create_spec(v: TabsView, url: Seq<char>, title: Option<Seq<char>>) -> (
    TabsView,
    TabView,
) {
    let n = v.next_id;
    let t = TabView {
        id: tab_id_of(n),
        title: match title {
            Some(s) => s,
            None => default_title(),
        },
        url: url,
        active: true,
    };
    let tabs = match v.active {
        Some(a) => if v.tabs.contains_key(a) {
            v.tabs.insert(a, with_active(v.tabs[a], false))
        } else {
            v.tabs
        },
        None => v.tabs,
    };
    (
        TabsView {
            tabs: tabs.insert(n, t),
            order: v.order.push(n),
            active: Some(n),
            closed: v.closed,
            next_id: (n + 1) as u64,
        },
        t,
    )
}

/// `switch_tab`: the new state and whether the tab exists.
pub open spec fn switch_spec(v: TabsView, id: Seq<char>) -> (TabsView, bool) {
    if has_tab(v, id) {
        let n = tab_named(v, id);
        (
            TabsView {
                tabs: Map::new(
                    |k: u64| v.tabs.contains_key(k),
                    |k: u64| with_active(v.tabs[k], k == n),
                ),
                order: v.order,
                active: Some(n),
                closed: v.closed,
                next_id: v.next_id,
            },
            true,
        )
    } else {
        (v, false)
    }
}

/// `close_tab`: the new state, the closed tab's URL, and the id of the tab
/// that is active afterwards.
pub open spec fn close_spec(v: TabsView, id: Seq<char>) -> (
    TabsView,
    Option<Seq<char>>,
    Option<Seq<char>>,
) {
    if has_tab(v, id) {
        let n = tab_named(v, id);
        let url = v.tabs[n].url;
        let tabs = v.tabs.remove(n);
        let order = v.order.remove(v.order.index_of(n));
        if v.active == Some(n) {
            let next: Option<u64> = if order.len() > 0 {
                Some(order.last())
            } else {
                None
            };
            let tabs2 = match next {
                Some(a) => tabs.insert(a, with_active(tabs[a], true)),
                None => tabs,
            };
            (
                TabsView {
                    tabs: tabs2,
                    order: order,
                    active: next,
                    closed: v.closed.push(url),
                    next_id: v.next_id,
                },
                Some(url),
                opt_tab_id(next),
            )
        } else {
            (
                TabsView {
                    tabs: tabs,
                    order: order,
                    active: v.active,
                    closed: v.closed.push(url),
                    next_id: v.next_id,
                },
                Some(url),
                opt_tab_id(v.active),
            )
        }
    } else {
        (v, None, opt_tab_id(v.active))
    }
}

/// `pop_closed_url`: the new state and the most recently closed URL.
pub open spec fn pop_spec(v: TabsView) -> (TabsView, Option<Seq<char>>) {
    if v.closed.len() > 0 {
        (
            TabsView {
                tabs: v.tabs,
                order: v.order,
                active: v.active,
                closed: v.closed.drop_last(),
                next_id: v.next_id,
            },
            Some(v.closed.last()),
        )
    } else {
        (v, None)
    }
}

/// `update_tab`: the new state.
pub open spec fn update_spec(
    v: TabsView,
    id: Seq<char>,
    title: Option<Seq<char>>,
    url: Option<Seq<char>>,
) -> TabsView {
    if has_tab(v, id) {
        let n = tab_named(v, id);
        let t = v.tabs[n];
        let t2 = TabView {
            id: t.id,
            title: match title {
                Some(s) => s,
                None => t.title,
            },
            url: match url {
                Some(u) => u,
                None => t.url,
            },
            active: t.active,
        };
        TabsView {
            tabs: v.tabs.insert(n, t2),
            order: v.order,
            active: v.active,
            closed: v.closed,
            next_id: v.next_id,
        }
    } else {
        v
    }
}

/// The contents of a list of tab records.
pub open spec fn tab_views(s: Seq<TabData>) -> Seq<TabView> {
    s.map_values(|t: TabData| t@)
}

/// The tabs in order.
pub open spec fn tab_list(v: TabsView) -> Seq<TabView> {
    v.order.map_values(|n: u64| v.tabs[n])
}

/// Tab ids name at most one tab.
pub proof fn lemma_tab_id_injective(a: u64, b: u64)
    ensures
        tab_id_of(a) == tab_id_of(b) ==> a == b,
{
    if tab_id_of(a) == tab_id_of(b) {
        assert(decimal(a as nat) =~= tab_id_of(a).subrange(4, tab_id_of(a).len() as int));
        assert(decimal(b as nat) =~= tab_id_of(b).subrange(4, tab_id_of(b).len() as int));
        lemma_decimal_injective(a as nat, b as nat);
    }
}

/// When a tab is called `id`, `tab_named` finds exactly that tab.
pub proof fn lemma_tab_named(v: TabsView, id: Seq<char>, n: u64)
    requires
        names_tab(v, id, n),
    ensures
        has_tab(v, id),
        tab_named(v, id) == n,
{
    let m = tab_named(v, id);
    lemma_tab_id_injective(m, n);
}


/// Removing an element of a duplicate-free sequence: what remains.
proof fn lemma_remove_index(s: Seq<u64>, i: int)
    requires
        s.no_duplicates(),
        0 <= i < s.len(),
    ensures
        s.remove(i).no_duplicates(),
        forall|x: u64| #[trigger] s.remove(i).contains(x) <==> (s.contains(x) && x != s[i]),
        s.remove(i).len() == s.len() - 1,
{
    let r = s.remove(i);
    s.remove_ensures(i);
    assert forall|a: int, b: int| 0 <= a < r.len() && 0 <= b < r.len() && a != b implies r[a]
        != r[b] by {
        let a2 = if a < i { a } else { a + 1 };
        let b2 = if b < i { b } else { b + 1 };
        assert(r[a] == s[a2] && r[b] == s[b2]);
    }
    assert forall|x: u64| #[trigger] r.contains(x) <==> (s.contains(x) && x != s[i]) by {
        if r.contains(x) {
            let a = choose|a: int| 0 <= a < r.len() && r[a] == x;
            let a2 = if a < i { a } else { a + 1 };
            assert(r[a] == s[a2]);
        }
        if s.contains(x) && x != s[i] {
            let a = choose|a: int| 0 <= a < s.len() && s[a] == x;
            if a < i {
                assert(r[a] == x);
            } else {
                assert(a != i);
                assert(r[a - 1] == x);
            }
        }
    }
}

/// `index_of` finds the one position of an element of a duplicate-free sequence.
proof fn lemma_index_of_unique(s: Seq<u64>, i: int)
    requires
        s.no_duplicates(),
        0 <= i < s.len(),
    ensures
        s.index_of(s[i]) == i,
{
    let j = s.index_of(s[i]);
    assert(s.contains(s[i]));
}

/// Creating a tab keeps the invariant.
pub proof fn lemma_create_keeps_wf(v: TabsView, url: Seq<char>, title: Option<Seq<char>>)
    requires
        tabs_wf(v),
        v.next_id < u64::MAX,
    ensures
        tabs_wf(create_spec(v, url, title).0),
{
    let w = create_spec(v, url, title).0;
    let n = v.next_id;
    assert(!v.tabs.contains_key(n));
    assert(!v.order.contains(n));
    assert forall|k: u64| #[trigger] w.tabs.contains_key(k) <==> w.order.contains(k) by {
        if w.order.contains(k) && k != n {
            let i = choose|i: int| 0 <= i < w.order.len() && w.order[i] == k;
            assert(v.order[i] == k);
        }
        if v.order.contains(k) {
            let i = choose|i: int| 0 <= i < v.order.len() && v.order[i] == k;
            assert(w.order[i] == k);
        }
        assert(w.order[v.order.len() as int] == n);
    }
    assert(increasing(w.order)) by {
        assert forall|a: int, b: int| 0 <= a < b < w.order.len() implies #[trigger] w.order[a]
            < #[trigger] w.order[b] by {
            assert(w.order[a] == v.order[a]);
            assert(v.order.contains(v.order[a]));
            assert(v.tabs.contains_key(v.order[a]));
            if b < v.order.len() {
                assert(w.order[b] == v.order[b]);
            } else {
                assert(w.order[b] == n);
            }
        }
    }
    assert(w.order.no_duplicates()) by {
        assert forall|a: int, b: int| 0 <= a < w.order.len() && 0 <= b < w.order.len() && a != b
            implies w.order[a] != w.order[b] by {
            if a < v.order.len() && b < v.order.len() {
            } else if a < v.order.len() {
                assert(v.order.contains(w.order[a]));
            } else {
                assert(v.order.contains(w.order[b]));
            }
        }
    }
}

/// Switching tabs keeps the invariant.
pub proof fn lemma_switch_keeps_wf(v: TabsView, id: Seq<char>)
    requires
        tabs_wf(v),
    ensures
        tabs_wf(switch_spec(v, id).0),
{
    if has_tab(v, id) {
        let w = switch_spec(v, id).0;
        let n = tab_named(v, id);
        assert(v.order.contains(n));
        assert(v.order.len() > 0);
    }
}

/// Closing a tab keeps the invariant.
pub proof fn lemma_close_keeps_wf(v: TabsView, id: Seq<char>)
    requires
        tabs_wf(v),
    ensures
        tabs_wf(close_spec(v, id).0),
{
    if has_tab(v, id) {
        let n = tab_named(v, id);
        let w = close_spec(v, id).0;
        assert(v.order.contains(n));
        let i = v.order.index_of(n);
        lemma_remove_index(v.order, i);
        let order = v.order.remove(i);
        assert(w.order == order);
        assert(increasing(order)) by {
            assert forall|a: int, b: int| 0 <= a < b < order.len() implies #[trigger] order[a]
                < #[trigger] order[b] by {
                let a2 = if a < i { a } else { a + 1 };
                let b2 = if b < i { b } else { b + 1 };
                assert(order[a] == v.order[a2] && order[b] == v.order[b2]);
            }
        }
        assert forall|k: u64| #[trigger] w.tabs.contains_key(k) <==> w.order.contains(k) by {
            assert(order.contains(k) <==> (v.order.contains(k) && k != n));
        }
        if v.active == Some(n) {
            if order.len() > 0 {
                let a = order.last();
                assert(order.contains(a));
                assert(v.tabs.contains_key(a) && a != n);
                assert(w.tabs[a] == with_active(v.tabs[a], true));
                assert forall|k: u64| #[trigger] w.tabs.contains_key(k) implies w.tabs[k].id
                    == tab_id_of(k) && 1 <= k < w.next_id by {
                    assert(v.tabs.contains_key(k));
                    if k != a {
                        assert(w.tabs[k] == v.tabs[k]);
                    }
                }
            }
        } else {
            let a = v.active->0;
            assert(v.order.contains(a));
            assert(order.contains(a));
        }
    }
}

/// Updating a tab keeps the invariant.
pub proof fn lemma_update_keeps_wf(
    v: TabsView,
    id: Seq<char>,
    title: Option<Seq<char>>,
    url: Option<Seq<char>>,
)
    requires
        tabs_wf(v),
    ensures
        tabs_wf(update_spec(v, id, title, url)),
{
}

/// Popping a closed URL keeps the invariant.
pub proof fn lemma_pop_keeps_wf(v: TabsView)
    requires
        tabs_wf(v),
    ensures
        tabs_wf(pop_spec(v).0),
{
}


/// The id string of tab number `n`.
fn tab_id_string(n: u64) -> (r: String)
    ensures
        r@ == tab_id_of(n),
{
    let mut r = String::from_str("tab_");
    proof {
        reveal_strlit("tab_");
    }
    push_decimal(&mut r, n);
    r
}

/// The number of the tab that `id` would name, if `id` has the form of a tab id.
fn tab_number(id: &str) -> (r: Option<u64>)
    ensures
        forall|n: u64| r == Some(n) <==> id@ == tab_id_of(n),
{
    let v = chars_of(id);
    if v.len() < 4 || v[0] != 't' || v[1] != 'a' || v[2] != 'b' || v[3] != '_' {
        proof {
            assert forall|n: u64| id@ != tab_id_of(n) by {
                if id@ == tab_id_of(n) {
                    assert(id@[0] == 't' && id@[1] == 'a' && id@[2] == 'b' && id@[3] == '_');
                }
            }
        }
        return None;
    }
    let r = parse_decimal_suffix(&v, 4);
    proof {
        assert forall|n: u64| r == Some(n) <==> id@ == tab_id_of(n) by {
            if id@ == tab_id_of(n) {
                assert(v@.subrange(4, v@.len() as int) =~= decimal(n as nat));
            }
            if v@.subrange(4, v@.len() as int) == decimal(n as nat) {
                assert(id@ =~= tab_id_of(n));
            }
        }
    }
    r
}

/// A copy of a tab.
fn copy_tab(t: &TabData) -> (r: TabData)
    ensures
        r == *t,
{
    TabData { id: t.id.clone(), title: t.title.clone(), url: t.url.clone(), active: t.active }
}

/// The stored tab state, on which the operations are proved against the
/// invariant `tabs_wf`.
struct TabState {
    tabs: HashMap<u64, TabData>,
    tab_order: Vec<u64>,
    active_tab_id: Option<u64>,
    closed_history: Vec<String>,
    next_id: u64,
}

impl View for TabState {
    type V = TabsView;

    closed spec fn view(&self) -> TabsView {
        TabsView {
            tabs: self.tabs@.map_values(|t: TabData| t@),
            order: self.tab_order@,
            active: self.active_tab_id,
            closed: self.closed_history@.map_values(|s: String| s@),
            next_id: self.next_id,
        }
    }
}

impl TabState {
    /// The invariant of the tab state.
    spec fn wf(&self) -> bool {
        tabs_wf(self@)
    }

    /// How the tab map's view relates to the stored records.
    proof fn lemma_tabs_view(&self)
        ensures
            forall|k: u64| #[trigger] self@.tabs.contains_key(k) <==> self.tabs@.contains_key(k),
            forall|k: u64| self.tabs@.contains_key(k) ==> #[trigger] self@.tabs[k] == self.tabs@[k]@,
    {
    }

    /// No tabs, nothing closed; the first tab will be `tab_1`.
    fn new() -> (m: Self)
        ensures
            m.wf(),
            m@.tabs == Map::<u64, TabView>::empty(),
            m@.order == Seq::<u64>::empty(),
            m@.active is None,
            m@.closed == Seq::<Seq<char>>::empty(),
            m@.next_id == 1,
    {
        let m = TabState {
            tabs: HashMap::new(),
            tab_order: Vec::new(),
            active_tab_id: None,
            closed_history: Vec::new(),
            next_id: 1,
        };
        assert(m@.tabs =~= Map::<u64, TabView>::empty());
        assert(m@.closed =~= Seq::<Seq<char>>::empty());
        m
    }

    /// The number of the tab called `id`, if there is one.
    fn find(&self, id: &str) -> (r: Option<u64>)
        requires
            self.wf(),
        ensures
            match r {
                Some(n) => names_tab(self@, id@, n) && has_tab(self@, id@) && tab_named(self@, id@)
                    == n,
                None => !has_tab(self@, id@),
            },
    {
        match tab_number(id) {
            Some(n) => {
                if self.tabs.contains_key(&n) {
                    proof {
                        lemma_tab_named(self@, id@, n);
                    }
                    Some(n)
                } else {
                    proof {
                        assert forall|m: u64| !names_tab(self@, id@, m) by {
                            if names_tab(self@, id@, m) {
                                lemma_tab_id_injective(m, n);
                            }
                        }
                    }
                    None
                }
            },
            None => None,
        }
    }

    /// The id string of an optional tab number.
    fn id_string_of(a: Option<u64>) -> (r: Option<String>)
        ensures
            opt_str(r) == opt_tab_id(a),
    {
        match a {
            Some(n) => Some(tab_id_string(n)),
            None => None,
        }
    }

    /// Creates a tab for `url` (titled "New Tab" when no title is given),
    /// places it last and makes it the active tab; returns its id and record.
    fn create_tab(&mut self, url: String, title: Option<String>) -> (r: (String, TabData))
        requires
            old(self).wf(),
            old(self)@.next_id < u64::MAX,
        ensures
            final(self).wf(),
            (final(self)@, r.1@) == create_spec(old(self)@, url@, opt_str(title)),
            r.0@ == r.1@.id,
    {
        let ghost v = self@;
        proof {
            self.lemma_tabs_view();
        }
        let ghost title_v = opt_str(title);
        let ghost url_v = url@;
        let n = self.next_id;
        let id = tab_id_string(n);
        let tab_title = match title {
            Some(t) => t,
            None => String::from_str("New Tab"),
        };
        let tab = TabData { id: id.clone(), title: tab_title, url: url, active: true };
        match self.active_tab_id {
            Some(a) => {
                match self.tabs.get(&a) {
                    Some(t) => {
                        let mut t2 = copy_tab(t);
                        t2.active = false;
                        self.tabs.insert(a, t2);
                    },
                    None => {},
                }
            },
            None => {},
        }
        self.tabs.insert(n, copy_tab(&tab));
        self.tab_order.push(n);
        self.active_tab_id = Some(n);
        self.next_id = n + 1;
        proof {
            let w = create_spec(v, url_v, title_v);
            self.lemma_tabs_view();
            assert(self@.tabs =~= w.0.tabs);
            assert(self@.closed =~= w.0.closed);
            lemma_create_keeps_wf(v, url_v, title_v);
        }
        (id, tab)
    }

    /// Makes the tab called `target_id` the active one; `false` when there is no such tab.
    fn switch_tab(&mut self, target_id: &str) -> (r: bool)
        requires
            old(self).wf(),
        ensures
            final(self).wf(),
            (final(self)@, r) == switch_spec(old(self)@, target_id@),
    {
        let ghost v = self@;
        proof {
            self.lemma_tabs_view();
        }
        match self.find(target_id) {
            None => false,
            Some(n) => {
                let mut i: usize = 0;
                while i < self.tab_order.len()
                    invariant
                        tabs_wf(v),
                        v.tabs.contains_key(n),
                        self.tab_order@ == v.order,
                        self.active_tab_id == v.active,
                        self@.closed == v.closed,
                        self.next_id == v.next_id,
                        i <= self.tab_order.len(),
                        forall|k: u64| #[trigger]
                            self.tabs@.contains_key(k) <==> v.tabs.contains_key(k),
                        forall|k: u64| #[trigger]
                            self.tabs@.contains_key(k) ==> self.tabs@[k]@ == (if v.order.subrange(
                                0,
                                i as int,
                            ).contains(k) {
                                with_active(v.tabs[k], k == n)
                            } else {
                                v.tabs[k]
                            }),
                    decreases self.tab_order.len() - i,
                {
                    let k = self.tab_order[i];
                    let ghost before = self.tabs@;
                    assert(v.order.contains(k));
                    assert(!v.order.subrange(0, i as int).contains(k));
                    assert forall|x: u64| #[trigger]
                        v.order.subrange(0, i + 1).contains(x) <==> (v.order.subrange(
                            0,
                            i as int,
                        ).contains(x) || x == k) by {
                        if v.order.subrange(0, i + 1).contains(x) {
                            let j = choose|j: int| 0 <= j < i + 1 && #[trigger] v.order.subrange(0, i + 1)[j] == x;
                            if j < i {
                                assert(v.order.subrange(0, i as int)[j] == x);
                            }
                        }
                        if v.order.subrange(0, i as int).contains(x) {
                            let j = choose|j: int| 0 <= j < i && #[trigger] v.order.subrange(0, i as int)[j] == x;
                            assert(v.order.subrange(0, i + 1)[j] == x);
                        }
                        if x == k {
                            assert(v.order.subrange(0, i + 1)[i as int] == x);
                        }
                    }
                    match self.tabs.get(&k) {
                        Some(t) => {
                            let mut c = copy_tab(t);
                            c.active = k == n;
                            self.tabs.insert(k, c);
                        },
                        None => {
                            proof {
                                assert(before.contains_key(k));
                            }
                        },
                    }
                    i = i + 1;
                }
                self.active_tab_id = Some(n);
                proof {
                    self.lemma_tabs_view();
                    assert(v.order.subrange(0, i as int) =~= v.order);
                    let w = switch_spec(v, target_id@);
                    self.lemma_tabs_view();
            assert(self@.tabs =~= w.0.tabs);
                    lemma_switch_keeps_wf(v, target_id@);
                }
                true
            },
        }
    }

    /// Closes the tab called `tab_id`, remembering its URL for reopening. When
    /// it was the active tab, the last remaining tab becomes active. Returns
    /// the closed tab's URL (none when there is no such tab) and the id of the
    /// tab that is active afterwards.
    fn close_tab(&mut self, tab_id: &str) -> (r: (Option<String>, Option<String>))
        requires
            old(self).wf(),
        ensures
            final(self).wf(),
            (final(self)@, opt_str(r.0), opt_str(r.1)) == close_spec(old(self)@, tab_id@),
    {
        let ghost v = self@;
        proof {
            self.lemma_tabs_view();
        }
        match self.find(tab_id) {
            None => {
                let a = Self::id_string_of(self.active_tab_id);
                (None, a)
            },
            Some(n) => {
                let url = match self.tabs.get(&n) {
                    Some(t) => t.url.clone(),
                    None => {
                        proof {
                            assert(false);
                        }
                        String::new()
                    },
                };
                self.closed_history.push(url.clone());
                let ghost t0 = self.tabs@;
                self.tabs.remove(&n);
                assert(v.order.contains(n));
                let mut idx: usize = 0;
                while idx < self.tab_order.len() && self.tab_order[idx] != n
                    invariant
                        idx <= self.tab_order.len(),
                        self.tab_order@ == v.order,
                        v.order.contains(n),
                        forall|j: int| 0 <= j < idx ==> v.order[j] != n,
                    decreases self.tab_order.len() - idx,
                {
                    idx = idx + 1;
                }
                proof {
                    if idx == self.tab_order.len() {
                        let j = choose|j: int| 0 <= j < v.order.len() && v.order[j] == n;
                        assert(v.order[j] != n);
                    }
                    lemma_index_of_unique(v.order, idx as int);
                }
                self.tab_order.remove(idx);
                let was_active = match self.active_tab_id {
                    Some(a) => a == n,
                    None => false,
                };
                if was_active {
                    let len = self.tab_order.len();
                    if len > 0 {
                        let a = self.tab_order[len - 1];
                        self.active_tab_id = Some(a);
                        proof {
                            lemma_remove_index(v.order, idx as int);
                            assert(self.tab_order@[len - 1] == a);
                            assert(self.tab_order@.contains(a));
                            assert(v.order.contains(a) && a != n);
                            assert(v.tabs.contains_key(a));
                            assert(t0.contains_key(a));
                            assert(self.tabs@.contains_key(a));
                        }
                        match self.tabs.get(&a) {
                            Some(t) => {
                                let mut c = copy_tab(t);
                                c.active = true;
                                self.tabs.insert(a, c);
                            },
                            None => {
                                proof {
                                    assert(false);
                                }
                            },
                        }
                    } else {
                        self.active_tab_id = None;
                    }
                }
                let act = Self::id_string_of(self.active_tab_id);
                proof {
                    let w = close_spec(v, tab_id@);
                    self.lemma_tabs_view();
            assert(self@.tabs =~= w.0.tabs);
                    assert(self@.closed =~= w.0.closed);
                    lemma_close_keeps_wf(v, tab_id@);
                }
                (Some(url), act)
            },
        }
    }

    /// Takes the most recently closed URL off the reopen stack.
    fn pop_closed_url(&mut self) -> (r: Option<String>)
        requires
            old(self).wf(),
        ensures
            final(self).wf(),
            (final(self)@, opt_str(r)) == pop_spec(old(self)@),
    {
        let ghost v = self@;
        let r = self.closed_history.pop();
        proof {
            assert(self@.closed =~= pop_spec(v).0.closed);
            lemma_pop_keeps_wf(v);
        }
        r
    }

    /// The id of the active tab.
    fn active_tab_id(&self) -> (r: Option<String>)
        ensures
            opt_str(r) == opt_tab_id(self@.active),
    {
        Self::id_string_of(self.active_tab_id)
    }

    /// Sets the title and/or URL of the tab called `tab_id`; does nothing when
    /// there is no such tab.
    fn update_tab(&mut self, tab_id: &str, title: Option<String>, url: Option<String>)
        requires
            old(self).wf(),
        ensures
            final(self).wf(),
            final(self)@ == update_spec(old(self)@, tab_id@, opt_str(title), opt_str(url)),
    {
        let ghost v = self@;
        proof {
            self.lemma_tabs_view();
        }
        let ghost title_v = opt_str(title);
        let ghost url_v = opt_str(url);
        match self.find(tab_id) {
            None => {},
            Some(n) => {
                match self.tabs.get(&n) {
                    Some(t) => {
                        let mut c = copy_tab(t);
                        match title {
                            Some(tt) => {
                                c.title = tt;
                            },
                            None => {},
                        }
                        match url {
                            Some(u) => {
                                c.url = u;
                            },
                            None => {},
                        }
                        self.tabs.insert(n, c);
                    },
                    None => {
                        proof {
                            assert(false);
                        }
                    },
                }
                proof {
                    self.lemma_tabs_view();
                    assert(self@.tabs =~= update_spec(v, tab_id@, title_v, url_v).tabs);
                }
            },
        }
        proof {
            lemma_update_keeps_wf(v, tab_id@, title_v, url_v);
        }
    }

    /// All tab records, in tab order.
    fn get_tabs_list(&self) -> (r: Vec<TabData>)
        requires
            self.wf(),
        ensures
            tab_views(r@) == tab_list(self@),
    {
        let mut r: Vec<TabData> = Vec::new();
        let mut i: usize = 0;
        while i < self.tab_order.len()
            invariant
                self.wf(),
                i <= self.tab_order.len(),
                tab_views(r@) == tab_list(self@).subrange(0, i as int),
            decreases self.tab_order.len() - i,
        {
            let k = self.tab_order[i];
            proof {
                self.lemma_tabs_view();
                assert(self@.order[i as int] == k);
            }
            assert(self@.order.contains(k));
            assert(self@.tabs.contains_key(k));
            assert(self.tabs@.contains_key(k));
            let ghost before = r@;
            match self.tabs.get(&k) {
                Some(t) => {
                    r.push(copy_tab(t));
                },
                None => {
                    proof {
                        assert(false);
                    }
                },
            }
            assert(r@ == before.push(self.tabs@[k]));
            assert(tab_list(self@)[i as int] == self@.tabs[k]);
            assert(tab_views(r@) =~= tab_views(before).push(self.tabs@[k]@));
            assert(tab_list(self@).subrange(0, i + 1) =~= tab_list(self@).subrange(0, i as int).push(
                tab_list(self@)[i as int],
            ));
            i = i + 1;
            assert(tab_views(r@) =~= tab_list(self@).subrange(0, i as int));
        }
        assert(tab_list(self@).subrange(0, i as int) =~= tab_list(self@));
        r
    }

    /// Whether another tab can be numbered (`create_tab` needs this).
    fn can_create_tab(&self) -> (r: bool)
        ensures
            r == (self@.next_id < u64::MAX),
    {
        self.next_id < u64::MAX
    }

    /// Number of open tabs.
    fn tab_count(&self) -> (n: usize)
        ensures
            n == self@.order.len(),
    {
        self.tab_order.len()
    }
}


/// The tabs of the browser window.
pub struct TabManager {
    state: TabState,
}

impl View for TabManager {
    type V = TabsView;

    closed spec fn view(&self) -> TabsView {
        self.state@
    }
}

impl TabManager {
    /// The tab state always meets its invariant.
    #[verifier::type_invariant]
    closed spec fn valid(self) -> bool {
        tabs_wf(self.state@)
    }

    /// No tabs, nothing closed; the first tab will be `tab_1`.
    pub fn new() -> (m: Self)
        ensures
            tabs_wf(m@),
            m@.tabs == Map::<u64, TabView>::empty(),
            m@.order == Seq::<u64>::empty(),
            m@.active is None,
            m@.closed == Seq::<Seq<char>>::empty(),
            m@.next_id == 1,
    {
        TabManager { state: TabState::new() }
    }

    /// Takes the state out, leaving an empty one in its place.
    fn take_state(&mut self) -> (st: TabState)
        ensures
            st.wf(),
            st@ == old(self)@,
    {
        proof {
            use_type_invariant(&*self);
        }
        let mut st = TabState::new();
        std::mem::swap(&mut st, &mut self.state);
        st
    }

    /// Creates a tab for `url` (titled "New Tab" when no title is given),
    /// places it last and makes it the active tab; returns its id and record.
    pub fn create_tab(&mut self, url: String, title: Option<String>) -> (r: (String, TabData))
        requires
            old(self)@.next_id < u64::MAX,
        ensures
            tabs_wf(final(self)@),
            (final(self)@, r.1@) == create_spec(old(self)@, url@, opt_str(title)),
            r.0@ == r.1@.id,
    {
        let mut st = self.take_state();
        let r = st.create_tab(url, title);
        self.state = st;
        r
    }

    /// Makes the tab called `target_id` the active one; `false` when there is no such tab.
    pub fn switch_tab(&mut self, target_id: &str) -> (r: bool)
        ensures
            tabs_wf(final(self)@),
            (final(self)@, r) == switch_spec(old(self)@, target_id@),
    {
        let mut st = self.take_state();
        let r = st.switch_tab(target_id);
        self.state = st;
        r
    }

    /// Closes the tab called `tab_id`, remembering its URL for reopening. When
    /// it was the active tab, the last remaining tab becomes active. Returns
    /// the closed tab's URL (none when there is no such tab) and the id of the
    /// tab that is active afterwards.
    pub fn close_tab(&mut self, tab_id: &str) -> (r: (Option<String>, Option<String>))
        ensures
            tabs_wf(final(self)@),
            (final(self)@, opt_str(r.0), opt_str(r.1)) == close_spec(old(self)@, tab_id@),
    {
        let mut st = self.take_state();
        let r = st.close_tab(tab_id);
        self.state = st;
        r
    }

    /// Takes the most recently closed URL off the reopen stack.
    pub fn pop_closed_url(&mut self) -> (r: Option<String>)
        ensures
            tabs_wf(final(self)@),
            (final(self)@, opt_str(r)) == pop_spec(old(self)@),
    {
        let mut st = self.take_state();
        let r = st.pop_closed_url();
        self.state = st;
        r
    }

    /// The id of the active tab.
    pub fn active_tab_id(&self) -> (r: Option<String>)
        ensures
            tabs_wf(self@),
            opt_str(r) == opt_tab_id(self@.active),
    {
        proof {
            use_type_invariant(self);
        }
        self.state.active_tab_id()
    }

    /// Sets the title and/or URL of the tab called `tab_id`; does nothing when
    /// there is no such tab.
    pub fn update_tab(&mut self, tab_id: &str, title: Option<String>, url: Option<String>)
        ensures
            tabs_wf(final(self)@),
            final(self)@ == update_spec(old(self)@, tab_id@, opt_str(title), opt_str(url)),
    {
        let mut st = self.take_state();
        st.update_tab(tab_id, title, url);
        self.state = st;
    }

    /// All tab records, in tab order.
    pub fn get_tabs_list(&self) -> (r: Vec<TabData>)
        ensures
            tabs_wf(self@),
            tab_views(r@) == tab_list(self@),
    {
        proof {
            use_type_invariant(self);
        }
        self.state.get_tabs_list()
    }

    /// Whether another tab can be numbered (`create_tab` needs this).
    pub fn can_create_tab(&self) -> (r: bool)
        ensures
            tabs_wf(self@),
            r == (self@.next_id < u64::MAX),
    {
        proof {
            use_type_invariant(self);
        }
        self.state.can_create_tab()
    }

    /// Number of open tabs.
    pub fn tab_count(&self) -> (n: usize)
        ensures
            tabs_wf(self@),
            n == self@.order.len(),
    {
        proof {
            use_type_invariant(self);
        }
        self.state.tab_count()
    }
}

/// What the window does once a tab is closed.
pub enum AfterClose {
    /// Show the tab with this id, which is now the active one.
    Show(String),
    /// No tab is left: open a new tab on this URL.
    OpenNew(String),
}

/// What follows closing a tab, given the id that `close_tab` reports as
/// active afterwards: show that tab, or, when none is left, open a new tab on
/// the home page.
pub fn after_close(active: Option<String>) -> (r: AfterClose)
    ensures
        match active {
            Some(id) => r matches AfterClose::Show(s) && s@ == id@,
            None => r matches AfterClose::OpenNew(u) && u@ == home_url(),
        },
{
    match active {
        Some(id) => AfterClose::Show(id),
        None => AfterClose::OpenNew(String::from_str("https://www.google.com")),
    }
}

// ---------------------------------------------------------------------------
// Laws of the tab state
// ---------------------------------------------------------------------------

/// At most one tab is marked active; it is the tab that the active id names,
/// and whenever there are tabs, one of them is active.
pub proof fn law_single_active(v: TabsView)
    requires
        tabs_wf(v),
    ensures
        forall|i: int|
            0 <= i < tab_list(v).len() ==> (#[trigger] tab_list(v)[i].active <==> v.active == Some(
                v.order[i],
            )),
        forall|i: int, j: int|
            0 <= i < tab_list(v).len() && 0 <= j < tab_list(v).len() && #[trigger] tab_list(v)[i].active
                && #[trigger] tab_list(v)[j].active ==> i == j,
        tab_list(v).len() > 0 ==> exists|i: int|
            0 <= i < tab_list(v).len() && #[trigger] tab_list(v)[i].active,
{
    assert forall|i: int| 0 <= i < tab_list(v).len() implies (#[trigger] tab_list(v)[i].active
        <==> v.active == Some(v.order[i])) by {
        assert(v.order.contains(v.order[i]));
        assert(v.tabs.contains_key(v.order[i]));
    }
    if tab_list(v).len() > 0 {
        let a = v.active->0;
        assert(v.tabs.contains_key(a));
        assert(v.order.contains(a));
        let i = choose|i: int| 0 <= i < v.order.len() && v.order[i] == a;
        assert(tab_list(v)[i].active);
    }
}

/// No two tabs share an id.
pub proof fn law_ids_distinct(v: TabsView)
    requires
        tabs_wf(v),
    ensures
        forall|i: int, j: int|
            0 <= i < tab_list(v).len() && 0 <= j < tab_list(v).len() && i != j ==> #[trigger] tab_list(
                v,
            )[i].id != #[trigger] tab_list(v)[j].id,
{
    assert forall|i: int, j: int|
        0 <= i < tab_list(v).len() && 0 <= j < tab_list(v).len() && i != j implies #[trigger] tab_list(
            v,
        )[i].id != #[trigger] tab_list(v)[j].id by {
        let a = v.order[i];
        let b = v.order[j];
        assert(v.order.contains(a) && v.order.contains(b));
        assert(v.tabs.contains_key(a) && v.tabs.contains_key(b));
        lemma_tab_id_injective(a, b);
    }
}

/// A created tab gets an id that no open tab has, comes last, is the active
/// tab, and carries the given URL and title.
pub proof fn law_create_fresh(v: TabsView, url: Seq<char>, title: Option<Seq<char>>)
    requires
        tabs_wf(v),
        v.next_id < u64::MAX,
    ensures
        ({
            let (w, t) = create_spec(v, url, title);
            &&& !has_tab(v, t.id)
            &&& has_tab(w, t.id)
            &&& tab_list(w).len() == tab_list(v).len() + 1
            &&& tab_list(w).last() == t
            &&& opt_tab_id(w.active) == Some(t.id)
            &&& t.url == url
            &&& t.active
        }),
{
    let (w, t) = create_spec(v, url, title);
    let n = v.next_id;
    assert forall|m: u64| !names_tab(v, t.id, m) by {
        if names_tab(v, t.id, m) {
            lemma_tab_id_injective(m, n);
        }
    }
    assert(names_tab(w, t.id, n));
    assert(!v.tabs.contains_key(n));
    assert(tab_list(w).last() == w.tabs[n]);
}

/// Reopening right after closing a tab gives back that tab's URL, and leaves
/// the stack of closed URLs as it was before the close.
pub proof fn law_reopen_after_close(v: TabsView, id: Seq<char>)
    requires
        tabs_wf(v),
        has_tab(v, id),
    ensures
        pop_spec(close_spec(v, id).0).1 == Some(v.tabs[tab_named(v, id)].url),
        pop_spec(close_spec(v, id).0).0.closed == v.closed,
        close_spec(v, id).1 == Some(v.tabs[tab_named(v, id)].url),
{
    let w = close_spec(v, id).0;
    assert(w.closed.drop_last() =~= v.closed);
}

/// A closed tab is gone: no tab has its id any more, and there is one tab fewer.
pub proof fn law_close_removes(v: TabsView, id: Seq<char>)
    requires
        tabs_wf(v),
        has_tab(v, id),
    ensures
        !has_tab(close_spec(v, id).0, id),
        tab_list(close_spec(v, id).0).len() == tab_list(v).len() - 1,
{
    let n = tab_named(v, id);
    let w = close_spec(v, id).0;
    assert(v.order.contains(n));
    lemma_remove_index(v.order, v.order.index_of(n));
    assert forall|m: u64| !names_tab(w, id, m) by {
        if names_tab(w, id, m) {
            lemma_tab_id_injective(m, n);
        }
    }
}

/// Closing an id that names no tab changes nothing and reports no URL.
pub proof fn law_close_unknown_is_noop(v: TabsView, id: Seq<char>)
    requires
        !has_tab(v, id),
    ensures
        close_spec(v, id).0 == v,
        close_spec(v, id).1 is None,
        close_spec(v, id).2 == opt_tab_id(v.active),
{
}

/// When the active tab is closed, the last remaining tab becomes active.
pub proof fn law_close_active_moves_to_last(v: TabsView, id: Seq<char>)
    requires
        tabs_wf(v),
        has_tab(v, id),
        v.active == Some(tab_named(v, id)),
        tab_list(v).len() > 1,
    ensures
        close_spec(v, id).0.active == Some(close_spec(v, id).0.order.last()),
        close_spec(v, id).2 == Some(tab_id_of(close_spec(v, id).0.order.last())),
{
    let n = tab_named(v, id);
    assert(v.order.contains(n));
    lemma_remove_index(v.order, v.order.index_of(n));
}

/// Switching to an existing tab makes it the active one and changes neither
/// the order nor any tab's title or URL.
pub proof fn law_switch_activates(v: TabsView, id: Seq<char>)
    requires
        tabs_wf(v),
        has_tab(v, id),
    ensures
        switch_spec(v, id).1,
        opt_tab_id(switch_spec(v, id).0.active) == Some(id),
        switch_spec(v, id).0.order == v.order,
        forall|i: int|
            0 <= i < tab_list(v).len() ==> #[trigger] tab_list(switch_spec(v, id).0)[i].url
                == tab_list(v)[i].url && tab_list(switch_spec(v, id).0)[i].title == tab_list(v)[i].title,
{
    let w = switch_spec(v, id).0;
    assert forall|i: int| 0 <= i < tab_list(v).len() implies #[trigger] tab_list(w)[i].url
        == tab_list(v)[i].url && tab_list(w)[i].title == tab_list(v)[i].title by {
        assert(v.order.contains(v.order[i]));
        assert(v.tabs.contains_key(v.order[i]));
    }
}

/// The tab count is the length of the tab list.
pub proof fn law_count_is_list_len(v: TabsView)
    ensures
        tab_list(v).len() == v.order.len(),
{
}

/// The listed tabs with every `active` flag cleared.
pub open spec fn all_inactive(s: Seq<TabView>) -> Seq<TabView> {
    Seq::new(s.len(), |i: int| with_active(s[i], false))
}

/// The listed tabs with only the tab called `id` marked active.
pub open spec fn only_active(s: Seq<TabView>, id: Seq<char>) -> Seq<TabView> {
    Seq::new(s.len(), |i: int| with_active(s[i], s[i].id == id))
}

/// `t` with its title and URL replaced where new ones are given.
pub open spec fn retitled(t: TabView, title: Option<Seq<char>>, url: Option<Seq<char>>) -> TabView {
    TabView {
        id: t.id,
        title: match title {
            Some(s) => s,
            None => t.title,
        },
        url: match url {
            Some(u) => u,
            None => t.url,
        },
        active: t.active,
    }
}

/// The listed tabs with the tab called `id` retitled.
pub open spec fn update_listed(
    s: Seq<TabView>,
    id: Seq<char>,
    title: Option<Seq<char>>,
    url: Option<Seq<char>>,
) -> Seq<TabView> {
    Seq::new(s.len(), |i: int| if s[i].id == id { retitled(s[i], title, url) } else { s[i] })
}

/// The listed tabs after the one at position `k` is closed: when it was the
/// active one, the last remaining tab is marked active.
pub open spec fn close_listed(s: Seq<TabView>, k: int) -> Seq<TabView> {
    let rest = s.remove(k);
    if s[k].active && rest.len() > 0 {
        rest.update(rest.len() - 1, with_active(rest.last(), true))
    } else {
        rest
    }
}

/// Creating a tab lists every earlier tab, no longer active, followed by the
/// new tab: `tab_` and the next number, the given URL and title ("New Tab"
/// when none is given), and active. The new tab is the active one, the next
/// number goes up by one, and the stack of closed URLs is unchanged.
pub proof fn law_create_lists(v: TabsView, url: Seq<char>, title: Option<Seq<char>>)
    requires
        tabs_wf(v),
        v.next_id < u64::MAX,
    ensures
        ({
            let (w, t) = create_spec(v, url, title);
            &&& t == TabView {
                id: tab_id_of(v.next_id),
                title: match title {
                    Some(s) => s,
                    None => default_title(),
                },
                url: url,
                active: true,
            }
            &&& tab_list(w) == all_inactive(tab_list(v)).push(t)
            &&& opt_tab_id(w.active) == Some(t.id)
            &&& w.closed == v.closed
            &&& w.next_id == v.next_id + 1
        }),
{
    let (w, t) = create_spec(v, url, title);
    let n = v.next_id;
    assert(!v.tabs.contains_key(n));
    assert forall|i: int| 0 <= i < tab_list(v).len() implies tab_list(w)[i] == with_active(
        tab_list(v)[i],
        false,
    ) by {
        let k = v.order[i];
        assert(v.order.contains(k));
        assert(v.tabs.contains_key(k));
        assert(w.order[i] == k);
    }
    assert(w.order[v.order.len() as int] == n);
    assert(tab_list(w) =~= all_inactive(tab_list(v)).push(t));
}

/// Switching to `id` reports whether a listed tab is called `id`. If one is,
/// it becomes the active tab and the only one marked active, with order,
/// titles and URLs unchanged; if none is, nothing changes.
pub proof fn law_switch_lists(v: TabsView, id: Seq<char>)
    requires
        tabs_wf(v),
    ensures
        ({
            let (w, found) = switch_spec(v, id);
            &&& found == (exists|i: int| 0 <= i < tab_list(v).len() && #[trigger] tab_list(v)[i].id == id)
            &&& found ==> opt_tab_id(w.active) == Some(id) && tab_list(w) == only_active(tab_list(v), id)
                && w.closed == v.closed
            &&& !found ==> w == v
        }),
{
    let (w, found) = switch_spec(v, id);
    if has_tab(v, id) {
        let n = tab_named(v, id);
        assert(v.order.contains(n));
        let j = choose|j: int| 0 <= j < v.order.len() && v.order[j] == n;
        assert(tab_list(v)[j].id == id);
        assert forall|i: int| 0 <= i < tab_list(v).len() implies tab_list(w)[i] == with_active(
            tab_list(v)[i],
            tab_list(v)[i].id == id,
        ) by {
            let k = v.order[i];
            assert(v.order.contains(k));
            assert(v.tabs.contains_key(k));
            lemma_tab_id_injective(k, n);
        }
        assert(tab_list(w) =~= only_active(tab_list(v), id));
    } else {
        assert forall|i: int| 0 <= i < tab_list(v).len() implies #[trigger] tab_list(v)[i].id != id by {
            let k = v.order[i];
            assert(v.order.contains(k));
            assert(v.tabs.contains_key(k));
            if tab_list(v)[i].id == id {
                assert(names_tab(v, id, k));
            }
        }
    }
}

/// Updating the tab called `id` sets its title and URL where new ones are
/// given and changes nothing else; an id that names no tab changes nothing.
pub proof fn law_update_lists(
    v: TabsView,
    id: Seq<char>,
    title: Option<Seq<char>>,
    url: Option<Seq<char>>,
)
    requires
        tabs_wf(v),
    ensures
        ({
            let w = update_spec(v, id, title, url);
            &&& tab_list(w) == update_listed(tab_list(v), id, title, url)
            &&& w.order == v.order
            &&& w.active == v.active
            &&& w.closed == v.closed
        }),
{
    let w = update_spec(v, id, title, url);
    if has_tab(v, id) {
        let n = tab_named(v, id);
        assert forall|i: int| 0 <= i < tab_list(v).len() implies tab_list(w)[i] == (if tab_list(
            v,
        )[i].id == id {
            retitled(tab_list(v)[i], title, url)
        } else {
            tab_list(v)[i]
        }) by {
            let k = v.order[i];
            assert(v.order.contains(k));
            assert(v.tabs.contains_key(k));
            lemma_tab_id_injective(k, n);
        }
    } else {
        assert forall|i: int| 0 <= i < tab_list(v).len() implies #[trigger] tab_list(v)[i].id != id by {
            let k = v.order[i];
            assert(v.order.contains(k));
            assert(v.tabs.contains_key(k));
            if tab_list(v)[i].id == id {
                assert(names_tab(v, id, k));
            }
        }
    }
    assert(tab_list(w) =~= update_listed(tab_list(v), id, title, url));
}

/// Closing the tab called `id` reports its URL, which the next reopen gives
/// back. The list loses that tab; when it was the active one, the last
/// remaining tab becomes active. The id reported as active afterwards is
/// that of the active tab.
pub proof fn law_close_lists(v: TabsView, id: Seq<char>)
    requires
        tabs_wf(v),
        has_tab(v, id),
    ensures
        ({
            let k = v.order.index_of(tab_named(v, id));
            let l = tab_list(v);
            let (w, url, act) = close_spec(v, id);
            let rest = l.remove(k);
            &&& 0 <= k < l.len() && l[k].id == id
            &&& url == Some(l[k].url)
            &&& tab_list(w) == close_listed(l, k)
            &&& act == opt_tab_id(w.active)
            &&& act == (if l[k].active {
                if rest.len() > 0 {
                    Some(rest.last().id)
                } else {
                    None
                }
            } else {
                opt_tab_id(v.active)
            })
            &&& pop_spec(w).1 == url
        }),
{
    let n = tab_named(v, id);
    let l = tab_list(v);
    let (w, url, act) = close_spec(v, id);
    assert(v.order.contains(n));
    let k = v.order.index_of(n);
    lemma_remove_index(v.order, k);
    v.order.remove_ensures(k);
    l.remove_ensures(k);
    let order = v.order.remove(k);
    let rest = l.remove(k);
    assert(l[k] == v.tabs[n]);
    assert(w.order == order);
    let was_active = v.active == Some(n);
    assert(l[k].active == was_active);
    assert forall|i: int| 0 <= i < order.len() implies #[trigger] order[i] != n && v.tabs.contains_key(
        order[i],
    ) && rest[i] == v.tabs[order[i]] by {
        assert(order.contains(order[i]));
        if i < k {
            assert(order[i] == v.order[i]);
        } else {
            assert(order[i] == v.order[i + 1]);
        }
    }
    if was_active && order.len() > 0 {
        let a = order.last();
        assert(order[order.len() - 1] == a);
        assert forall|i: int| 0 <= i < order.len() implies tab_list(w)[i] == close_listed(l, k)[i] by {
            if i < order.len() - 1 {
                assert(order[i] != a);
            }
        }
        assert(rest.last() == v.tabs[a]);
    } else {
        assert forall|i: int| 0 <= i < order.len() implies tab_list(w)[i] == close_listed(l, k)[i] by {
        }
    }
    assert(tab_list(w) =~= close_listed(l, k));
}

/// What the tab list shows of any valid state: one entry per open tab, each
/// called `tab_` and its number, numbers distinct, below the next number and
/// increasing (the order of creation); the active id is that of the tab
/// marked active, and there is none exactly when no tab is marked active.
pub proof fn law_listed_in_creation_order(v: TabsView)
    requires
        tabs_wf(v),
    ensures
        tab_list(v).len() == v.order.len(),
        forall|i: int| 0 <= i < v.order.len() ==> #[trigger] tab_list(v)[i].id == tab_id_of(v.order[i]),
        forall|i: int| 0 <= i < v.order.len() ==> #[trigger] v.order[i] < v.next_id,
        increasing(v.order),
        forall|i: int|
            0 <= i < tab_list(v).len() && #[trigger] tab_list(v)[i].active ==> opt_tab_id(v.active)
                == Some(tab_list(v)[i].id),
        (forall|i: int| 0 <= i < tab_list(v).len() ==> !#[trigger] tab_list(v)[i].active) ==> v.active is None,
{
    assert forall|i: int| 0 <= i < v.order.len() implies #[trigger] tab_list(v)[i].id == tab_id_of(
        v.order[i],
    ) && v.order[i] < v.next_id && (tab_list(v)[i].active <==> v.active == Some(v.order[i])) by {
        assert(v.order.contains(v.order[i]));
        assert(v.tabs.contains_key(v.order[i]));
    }
    assert forall|i: int| 0 <= i < v.order.len() implies #[trigger] v.order[i] < v.next_id by {
        assert(v.order.contains(v.order[i]));
        assert(v.tabs.contains_key(v.order[i]));
    }
    law_single_active(v);
}

} // verus!
