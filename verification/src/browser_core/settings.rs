//! Key-value settings as read from the browser database.
use vstd::prelude::*;
use crate::browser_core::rows::present;
use crate::kv_map::{
    KvSeq, StringMap, kv_insert, kv_keys_distinct, kv_lookup, law_lookup_after_insert,
    lemma_kv_insert_distinct,
};

verus! {

/// How looking up one setting went.
pub enum SettingLookup {
    /// The setting is stored with this value.
    Found(String),
    /// The setting is not stored.
    Missing,
    /// The lookup failed with this message.
    Failed(String),
}

/// The settings map built from rows: each row stores its value under its
/// key, a later row replacing an earlier one with the same key.
pub open spec fn settings_from_rows(rows: Seq<(Seq<char>, Seq<char>)>) -> KvSeq
    decreases rows.len(),
{
    if rows.len() == 0 {
        Seq::empty()
    } else {
        kv_insert(settings_from_rows(rows.drop_last()), rows.last().0, rows.last().1)
    }
}

/// The contents of the readable rows.
pub open spec fn row_views(rows: Seq<Option<(String, String)>>) -> Seq<(Seq<char>, Seq<char>)> {
    present(rows).map_values(|r: (String, String)| (r.0@, r.1@))
}

/// Settings queries.
pub struct SettingsManager;

impl SettingsManager {
    /// The value of one setting: `Ok(None)` when it is not stored, the error
    /// message when the lookup failed.
    pub fn get_setting(lookup: SettingLookup) -> (r: Result<Option<String>, String>)
        ensures
            match lookup {
                SettingLookup::Found(v) => r == Ok::<Option<String>, String>(Some(v)),
                SettingLookup::Missing => r == Ok::<Option<String>, String>(None),
                SettingLookup::Failed(e) => r == Err::<Option<String>, String>(e),
            },
    {
        match lookup {
            SettingLookup::Found(v) => Ok(Some(v)),
            SettingLookup::Missing => Ok(None),
            SettingLookup::Failed(e) => Err(e),
        }
    }

    /// All settings from the rows read; rows that could not be decoded are skipped.
    pub fn get_all_settings(rows: Vec<Option<(String, String)>>) -> (r: StringMap)
        ensures
            r@ == settings_from_rows(row_views(rows@)),
    {
        let kept = crate::browser_core::rows::keep_present(rows);
        let ghost views = kept@.map_values(|r: (String, String)| (r.0@, r.1@));
        let mut m = StringMap::new();
        let mut kept = kept;
        let n = kept.len();
        let mut k: usize = 0;
        let ghost all = kept@;
        assert(views.subrange(0, 0) =~= Seq::<(Seq<char>, Seq<char>)>::empty());
        while kept.len() > 0
            invariant
                k + kept.len() == n == all.len(),
                views == all.map_values(|r: (String, String)| (r.0@, r.1@)),
                kept@ == all.subrange(k as int, n as int),
                m@ == settings_from_rows(views.subrange(0, k as int)),
            decreases kept.len(),
        {
            let (key, value) = kept.remove(0);
            assert(views.subrange(0, k + 1).drop_last() =~= views.subrange(0, k as int));
            assert(views[k as int] == (key@, value@));
            m.insert(key, value);
            k = k + 1;
            assert(kept@ =~= all.subrange(k as int, n as int));
        }
        assert(views.subrange(0, k as int) =~= views);
        m
    }
}


proof fn lemma_settings_distinct(rows: Seq<(Seq<char>, Seq<char>)>)
    ensures
        kv_keys_distinct(settings_from_rows(rows)),
    decreases rows.len(),
{
    if rows.len() > 0 {
        lemma_settings_distinct(rows.drop_last());
        lemma_kv_insert_distinct(settings_from_rows(rows.drop_last()), rows.last().0, rows.last().1);
    }
}

/// The last row for a key decides its value; the other keys keep theirs.
pub proof fn law_last_row_wins(rows: Seq<(Seq<char>, Seq<char>)>, k: Seq<char>, v: Seq<char>, q: Seq<char>)
    ensures
        kv_lookup(settings_from_rows(rows.push((k, v))), k) == Some(v),
        q != k ==> kv_lookup(settings_from_rows(rows.push((k, v))), q) == kv_lookup(
            settings_from_rows(rows),
            q,
        ),
{
    lemma_settings_distinct(rows);
    assert(rows.push((k, v)).drop_last() =~= rows);
    law_lookup_after_insert(settings_from_rows(rows), k, v, q);
}

} // verus!
