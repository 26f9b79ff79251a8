//! Per-tab undo history of the preview stylesheets applied to a page.
use vstd::prelude::*;
use crate::ai::validator::{AICssRule, copy_rules, rule_views};
use crate::kv_map::KvSeq;
use crate::text::str_eq;

verus! {

/// The contents of one applied rule set.
pub type RuleSetView = Seq<(Seq<char>, KvSeq)>;

/// The per-tab stacks, each tab once.
pub type HistoryView = Seq<(Seq<char>, Seq<RuleSetView>)>;

/// No tab occurs twice.
pub open spec fn tabs_distinct(v: HistoryView) -> bool {
    forall|i: int, j: int| 0 <= i < v.len() && 0 <= j < v.len() && i != j ==> #[trigger] v[i].0
        != #[trigger] v[j].0
}

/// The rule sets applied to `tab`, oldest first (none when the tab has no history).
pub open spec fn history_of(v: HistoryView, tab: Seq<char>) -> Seq<RuleSetView> {
    if exists|i: int| 0 <= i < v.len() && #[trigger] v[i].0 == tab {
        v[choose|i: int| 0 <= i < v.len() && #[trigger] v[i].0 == tab].1
    } else {
        Seq::empty()
    }
}

/// The stack after an undo: the newest rule set is dropped.
pub open spec fn undone(h: Seq<RuleSetView>) -> Seq<RuleSetView> {
    if h.len() > 0 {
        h.drop_last()
    } else {
        h
    }
}

/// What an undo hands back: the rule set that is current again, if any.
pub open spec fn undo_result(h: Seq<RuleSetView>) -> Option<RuleSetView> {
    if undone(h).len() > 0 {
        Some(undone(h).last())
    } else {
        None
    }
}

/// The stacks of preview rule sets applied to each tab.
pub struct PreviewHistory {
    stacks: Vec<(String, Vec<Vec<AICssRule>>)>,
}

/// The contents of the stored stacks.
pub open spec fn stack_views(s: Seq<(String, Vec<Vec<AICssRule>>)>) -> HistoryView {
    s.map_values(|e: (String, Vec<Vec<AICssRule>>)| (e.0@, set_views(e.1@)))
}

/// The contents of a stack of rule sets.
pub open spec fn set_views(s: Seq<Vec<AICssRule>>) -> Seq<RuleSetView> {
    s.map_values(|r: Vec<AICssRule>| rule_views(r@))
}

impl View for PreviewHistory {
    type V = HistoryView;

    closed spec fn view(&self) -> HistoryView {
        stack_views(self.stacks@)
    }
}

/// With distinct tabs, the stack at position `i` is the history of its tab.
proof fn lemma_history_at(v: HistoryView, i: int)
    requires
        tabs_distinct(v),
        0 <= i < v.len(),
    ensures
        history_of(v, v[i].0) == v[i].1,
{
    let j = choose|j: int| 0 <= j < v.len() && #[trigger] v[j].0 == v[i].0;
    assert(j == i);
}

/// Removing the stack at `i` and appending `(v[i].0, h)` changes only that tab's history.
proof fn lemma_replace_stack(v: HistoryView, i: int, h: Seq<RuleSetView>)
    requires
        tabs_distinct(v),
        0 <= i < v.len(),
    ensures
        tabs_distinct(v.remove(i).push((v[i].0, h))),
        forall|t: Seq<char>|
            #[trigger] history_of(v.remove(i).push((v[i].0, h)), t) == if t == v[i].0 {
                h
            } else {
                history_of(v, t)
            },
{
    let w = v.remove(i).push((v[i].0, h));
    v.remove_ensures(i);
    let last = w.len() - 1;
    assert(w[last] == (v[i].0, h));
    assert forall|a: int| 0 <= a < last implies #[trigger] w[a] == v[if a < i { a } else { a + 1 }] by {
    }
    assert forall|a: int, b: int| 0 <= a < w.len() && 0 <= b < w.len() && a != b implies #[trigger] w[a].0
        != #[trigger] w[b].0 by {
        let a2 = if a == last { i } else if a < i { a } else { a + 1 };
        let b2 = if b == last { i } else if b < i { b } else { b + 1 };
        assert(w[a].0 == v[a2].0);
        assert(w[b].0 == v[b2].0);
    }
    assert forall|t: Seq<char>| #[trigger] history_of(w, t) == if t == v[i].0 {
        h
    } else {
        history_of(v, t)
    } by {
        if t == v[i].0 {
            lemma_history_at(w, last);
        } else if exists|a: int| 0 <= a < v.len() && #[trigger] v[a].0 == t {
            let a = choose|a: int| 0 <= a < v.len() && #[trigger] v[a].0 == t;
            lemma_history_at(v, a);
            let a2 = if a < i { a } else { a - 1 };
            assert(a != i);
            assert(w[a2] == v[a]);
            lemma_history_at(w, a2);
        } else {
            assert forall|b: int| 0 <= b < w.len() implies #[trigger] w[b].0 != t by {
                if b != last {
                    let b2 = if b < i { b } else { b + 1 };
                    assert(w[b] == v[b2]);
                }
            }
        }
    }
}

/// Appending a stack for a tab without history sets only that tab's history.
proof fn lemma_add_stack(v: HistoryView, tab: Seq<char>, h: Seq<RuleSetView>)
    requires
        tabs_distinct(v),
        forall|i: int| 0 <= i < v.len() ==> #[trigger] v[i].0 != tab,
    ensures
        tabs_distinct(v.push((tab, h))),
        forall|t: Seq<char>|
            #[trigger] history_of(v.push((tab, h)), t) == if t == tab {
                h
            } else {
                history_of(v, t)
            },
{
    let w = v.push((tab, h));
    assert forall|a: int, b: int| 0 <= a < w.len() && 0 <= b < w.len() && a != b implies #[trigger] w[a].0
        != #[trigger] w[b].0 by {
        if a < v.len() && b < v.len() {
            assert(w[a] == v[a] && w[b] == v[b]);
        } else if a < v.len() {
            assert(w[a] == v[a]);
        } else {
            assert(w[b] == v[b]);
        }
    }
    assert forall|t: Seq<char>| #[trigger] history_of(w, t) == if t == tab {
        h
    } else {
        history_of(v, t)
    } by {
        if t == tab {
            lemma_history_at(w, v.len() as int);
        } else if exists|a: int| 0 <= a < v.len() && #[trigger] v[a].0 == t {
            let a = choose|a: int| 0 <= a < v.len() && #[trigger] v[a].0 == t;
            lemma_history_at(v, a);
            assert(w[a] == v[a]);
            lemma_history_at(w, a);
        } else {
            assert forall|b: int| 0 <= b < w.len() implies #[trigger] w[b].0 != t by {
                if b < v.len() {
                    assert(w[b] == v[b]);
                }
            }
        }
    }
}

impl PreviewHistory {
    #[verifier::type_invariant]
    pub closed spec fn tabs_unique(self) -> bool {
        tabs_distinct(self@)
    }

    /// No history for any tab.
    pub fn new() -> (h: Self)
        ensures
            forall|t: Seq<char>| #[trigger] history_of(h@, t) == Seq::<RuleSetView>::empty(),
    {
        let h = PreviewHistory { stacks: Vec::new() };
        assert(h@ =~= Seq::<(Seq<char>, Seq<RuleSetView>)>::empty());
        h
    }

    /// Position of `tab`'s stack, if it has one.
    fn position(&self, tab: &str) -> (r: Option<usize>)
        ensures
            match r {
                Some(i) => i < self@.len() && self@[i as int].0 == tab@,
                None => forall|i: int| 0 <= i < self@.len() ==> #[trigger] self@[i].0 != tab@,
            },
    {
        let mut i: usize = 0;
        while i < self.stacks.len()
            invariant
                i <= self.stacks.len() == self@.len(),
                forall|j: int| 0 <= j < i ==> #[trigger] self@[j].0 != tab@,
            decreases self.stacks.len() - i,
        {
            if str_eq(self.stacks[i].0.as_str(), tab) {
                return Some(i);
            }
            i = i + 1;
        }
        None
    }

    /// The stacks, taken out of `self` (which is left empty).
    fn take_stacks(&mut self) -> (r: Vec<(String, Vec<Vec<AICssRule>>)>)
        ensures
            stack_views(r@) == old(self)@,
            tabs_distinct(stack_views(r@)),
            final(self)@ == Seq::<(Seq<char>, Seq<RuleSetView>)>::empty(),
    {
        proof {
            use_type_invariant(&*self);
        }
        let mut r: Vec<(String, Vec<Vec<AICssRule>>)> = Vec::new();
        std::mem::swap(&mut r, &mut self.stacks);
        assert(self@ =~= Seq::<(Seq<char>, Seq<RuleSetView>)>::empty());
        r
    }

    /// Records that `rules` were applied to `tab_id`.
    pub fn record(&mut self, tab_id: &str, rules: Vec<AICssRule>)
        ensures
            forall|t: Seq<char>|
                #[trigger] history_of(final(self)@, t) == if t == tab_id@ {
                    history_of(old(self)@, t).push(rule_views(rules@))
                } else {
                    history_of(old(self)@, t)
                },
    {
        let pos = self.position(tab_id);
        let mut stacks = self.take_stacks();
        let ghost v = stack_views(stacks@);
        match pos {
            Some(i) => {
                let (key, mut stack) = stacks.remove(i);
                let ghost old_stack = stack@;
                stack.push(rules);
                proof {
                    lemma_history_at(v, i as int);
                    lemma_replace_stack(v, i as int, v[i as int].1.push(rule_views(rules@)));
                    assert(set_views(stack@) =~= v[i as int].1.push(
                        rule_views(rules@),
                    ));
                }
                stacks.push((key, stack));
                proof {
                    assert(stack_views(stacks@) =~= v.remove(i as int).push(
                        (v[i as int].0, v[i as int].1.push(rule_views(rules@))),
                    ));
                }
            },
            None => {
                let mut stack: Vec<Vec<AICssRule>> = Vec::new();
                stack.push(rules);
                assert(set_views(stack@) =~= seq![rule_views(rules@)]);
                stacks.push((String::from_str(tab_id), stack));
                proof {
                    assert(history_of(v, tab_id@) =~= Seq::<RuleSetView>::empty());
                    lemma_add_stack(v, tab_id@, seq![rule_views(rules@)]);
                    assert(stack_views(stacks@) =~= v.push((tab_id@, seq![rule_views(rules@)])));
                }
            },
        }
        self.stacks = stacks;
    }

    /// Undoes the newest rule set of `tab_id`; hands back the rule set that
    /// is current again, if any.
    pub fn undo(&mut self, tab_id: &str) -> (r: Option<Vec<AICssRule>>)
        ensures
            forall|t: Seq<char>|
                #[trigger] history_of(final(self)@, t) == if t == tab_id@ {
                    undone(history_of(old(self)@, t))
                } else {
                    history_of(old(self)@, t)
                },
            match r {
                Some(rules) => undo_result(history_of(old(self)@, tab_id@)) == Some(
                    rule_views(rules@),
                ),
                None => undo_result(history_of(old(self)@, tab_id@)) is None,
            },
    {
        let pos = self.position(tab_id);
        match pos {
            None => {
                proof {
                    assert(history_of(self@, tab_id@) =~= Seq::<RuleSetView>::empty());
                }
                None
            },
            Some(i) => {
                let mut stacks = self.take_stacks();
                let ghost v = stack_views(stacks@);
                let (key, mut stack) = stacks.remove(i);
                let ghost h = v[i as int].1;
                proof {
                    lemma_history_at(v, i as int);
                    assert(set_views(stack@) == h);
                }
                let _ = stack.pop();
                let ghost h2 = set_views(stack@);
                proof {
                    assert(h2 =~= undone(h));
                }
                let result = if stack.len() > 0 {
                    let last = stack.len() - 1;
                    assert(h2[last as int] == rule_views(stack@[last as int]@));
                    Some(copy_rules(stack[last].as_slice()))
                } else {
                    None
                };
                proof {
                    lemma_replace_stack(v, i as int, h2);
                }
                stacks.push((key, stack));
                proof {
                    assert(stack_views(stacks@) =~= v.remove(i as int).push((v[i as int].0, h2)));
                }
                self.stacks = stacks;
                result
            },
        }
    }

    /// Forgets the history of `tab_id`.
    pub fn reset(&mut self, tab_id: &str)
        ensures
            forall|t: Seq<char>|
                #[trigger] history_of(final(self)@, t) == if t == tab_id@ {
                    Seq::<RuleSetView>::empty()
                } else {
                    history_of(old(self)@, t)
                },
    {
        let pos = self.position(tab_id);
        match pos {
            None => {
                proof {
                    assert forall|t: Seq<char>| #[trigger] history_of(self@, t) == if t == tab_id@ {
                        Seq::<RuleSetView>::empty()
                    } else {
                        history_of(self@, t)
                    } by {
                        if t == tab_id@ {
                            assert(history_of(self@, t) =~= Seq::<RuleSetView>::empty());
                        }
                    }
                }
            },
            Some(i) => {
                let mut stacks = self.take_stacks();
                let ghost v = stack_views(stacks@);
                let (key, _stack) = stacks.remove(i);
                let stack: Vec<Vec<AICssRule>> = Vec::new();
                assert(set_views(stack@) =~= Seq::<RuleSetView>::empty());
                proof {
                    lemma_replace_stack(v, i as int, Seq::empty());
                }
                stacks.push((key, stack));
                proof {
                    assert(stack_views(stacks@) =~= v.remove(i as int).push(
                        (v[i as int].0, Seq::<RuleSetView>::empty()),
                    ));
                }
                self.stacks = stacks;
            },
        }
    }
}

/// Undoing right after recording hands back the rule set that was current
/// before, and restores that history.
pub proof fn law_undo_after_record(h: Seq<RuleSetView>, rules: RuleSetView)
    ensures
        undone(h.push(rules)) == h,
        undo_result(h.push(rules)) == (if h.len() > 0 {
            Some(h.last())
        } else {
            None::<RuleSetView>
        }),
{
    assert(h.push(rules).drop_last() =~= h);
}

} // verus!
