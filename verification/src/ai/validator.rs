//! Validation and sanitising of the CSS that the AI assistant proposes, and
//! compilation of the accepted rules into a stylesheet.
use vstd::prelude::*;
use crate::kv_map::{KvSeq, StringMap, kv_insert, kv_keys_distinct, kv_lookup, law_lookup_after_insert, lemma_kv_insert_distinct};
use crate::text::{
    chars_of, contains_char, contains_str, has_prefix, lemma_substring_in_prefix,
    lemma_substring_in_suffix, lemma_substring_self, lemma_trimmed_idempotent, has_substring, lowercase, push_char,
    remove_all, remove_all_str, starts_with_str, strip_trailing, strip_trailing_str, to_lowercase_str,
    trim_str, trimmed, utf8_len, utf8_len_exceeds,
};

verus! {

/// One CSS rule: a selector and its declarations.
pub struct AICssRule {
    pub selector: String,
    pub properties: StringMap,
}

impl View for AICssRule {
    type V = (Seq<char>, KvSeq);

    open spec fn view(&self) -> (Seq<char>, KvSeq) {
        (self.selector@, self.properties@)
    }
}

impl AICssRule {
    /// A copy of the rule.
    pub fn copy(&self) -> (r: Self)
        ensures
            r@ == self@,
    {
        AICssRule { selector: self.selector.clone(), properties: self.properties.copy() }
    }
}

/// A copy of a list of rules.
pub fn copy_rules(rules: &[AICssRule]) -> (r: Vec<AICssRule>)
    ensures
        rule_views(r@) == rule_views(rules@),
{
    let mut r: Vec<AICssRule> = Vec::new();
    let mut i: usize = 0;
    while i < rules.len()
        invariant
            i <= rules.len(),
            rule_views(r@) == rule_views(rules@).subrange(0, i as int),
        decreases rules.len() - i,
    {
        let ghost before = r@;
        r.push(rules[i].copy());
        assert(rule_views(r@) =~= rule_views(before).push(rules@[i as int]@));
        i = i + 1;
        assert(rule_views(r@) =~= rule_views(rules@).subrange(0, i as int));
    }
    assert(rule_views(rules@).subrange(0, i as int) =~= rule_views(rules@));
    r
}

/// The AI assistant's answer to a preview request.
pub struct AIPreviewResponse {
    pub summary: String,
    pub css_rules: Vec<AICssRule>,
    pub explanation: Option<String>,
}

/// The views of a list of rules.
pub open spec fn rule_views(rules: Seq<AICssRule>) -> Seq<(Seq<char>, KvSeq)> {
    rules.map_values(|r: AICssRule| r@)
}

/// The CSS sanitiser.
pub struct CssValidator;

/// The first character of `t`, in the order `{ } ; \ < @`, that a selector may not hold.
pub open spec fn first_forbidden_char(t: Seq<char>) -> Option<char> {
    if t.contains('{') {
        Some('{')
    } else if t.contains('}') {
        Some('}')
    } else if t.contains(';') {
        Some(';')
    } else if t.contains('\\') {
        Some('\\')
    } else if t.contains('<') {
        Some('<')
    } else if t.contains('@') {
        Some('@')
    } else {
        None
    }
}

/// The error for a selector that holds the forbidden character `c`.
pub open spec fn forbidden_char_message(c: char) -> Seq<char> {
    "Forbidden character '"@ + seq![c] + "' in selector"@
}

/// Largest accepted selector, in UTF-8 bytes.
pub const MAX_SELECTOR_BYTES: usize = 300;

/// What `sanitize_selector` answers: the trimmed selector, or why it is refused.
pub open spec fn selector_verdict(s: Seq<char>) -> Result<Seq<char>, Seq<char>> {
    let t = trimmed(s);
    if t.len() == 0 {
        Err("Empty selector"@)
    } else if first_forbidden_char(t) is Some {
        Err(forbidden_char_message(first_forbidden_char(t)->0))
    } else if utf8_len(t) > MAX_SELECTOR_BYTES {
        Err("Selector exceeds maximum allowed length"@)
    } else {
        Ok(t)
    }
}

/// A property name that the sanitiser drops: one that starts with a name
/// that can bind behaviour or inject content.
pub open spec fn forbidden_property(p: Seq<char>) -> bool {
    ||| has_prefix(p, "behavior"@)
    ||| has_prefix(p, "-moz-binding"@)
    ||| has_prefix(p, "binding"@)
    ||| has_prefix(p, "content"@)
}

/// A value that the sanitiser drops: its lowercase form holds a script,
/// binding, import or resource-loading keyword.
pub open spec fn forbidden_value(v: Seq<char>) -> bool {
    let l = lowercase(v);
    ||| has_substring(l, "javascript:"@)
    ||| has_substring(l, "vbscript:"@)
    ||| has_substring(l, "data:text/html"@)
    ||| has_substring(l, "expression("@)
    ||| has_substring(l, "-moz-binding"@)
    ||| has_substring(l, "@import"@)
    ||| has_substring(l, "</style>"@)
    ||| has_substring(l, "<script"@)
    ||| has_substring(l, "url("@)
}

/// What one declaration becomes: its normalised name and cleaned value, or
/// nothing when it is dropped. The value is checked for dangerous keywords
/// both as given and once cleaned, so that cutting out `!important` cannot
/// assemble one.
pub open spec fn sanitized_entry(k: Seq<char>, v: Seq<char>) -> Option<(Seq<char>, Seq<char>)> {
    let kn = lowercase(trimmed(k));
    let vn = trimmed(v);
    if kn.len() == 0 || vn.len() == 0 || forbidden_property(kn) || forbidden_value(vn) {
        None
    } else {
        let clean = trimmed(remove_all(strip_trailing(vn, ';'), "!important"@));
        if clean.len() == 0 || forbidden_value(clean) {
            None
        } else {
            Some((kn, clean))
        }
    }
}

/// The declarations that `sanitize_properties` keeps, in the order in which
/// their names first occur; a later declaration of the same name wins.
pub open spec fn sanitized_props(entries: KvSeq) -> KvSeq
    decreases entries.len(),
{
    if entries.len() == 0 {
        Seq::empty()
    } else {
        let acc = sanitized_props(entries.drop_last());
        match sanitized_entry(entries.last().0, entries.last().1) {
            Some(e) => kv_insert(acc, e.0, e.1),
            None => acc,
        }
    }
}

/// The rules that survive sanitising, or the error of the first rule whose
/// selector is refused.
pub open spec fn sanitized_rules(rules: Seq<(Seq<char>, KvSeq)>) -> Result<
    Seq<(Seq<char>, KvSeq)>,
    Seq<char>,
>
    decreases rules.len(),
{
    if rules.len() == 0 {
        Ok(Seq::empty())
    } else {
        match sanitized_rules(rules.drop_last()) {
            Err(e) => Err(e),
            Ok(acc) => match selector_verdict(rules.last().0) {
                Err(e) => Err(e),
                Ok(sel) => {
                    let p = sanitized_props(rules.last().1);
                    if p.len() > 0 {
                        Ok(acc.push((sel, p)))
                    } else {
                        Ok(acc)
                    }
                },
            },
        }
    }
}

/// What `sanitize_response` answers for these rules.
pub open spec fn response_verdict(rules: Seq<(Seq<char>, KvSeq)>) -> Result<
    Seq<(Seq<char>, KvSeq)>,
    Seq<char>,
> {
    if rules.len() == 0 {
        Err("AI response contains no CSS rules"@)
    } else {
        match sanitized_rules(rules) {
            Err(e) => Err(e),
            Ok(s) => if s.len() == 0 {
                Err("No valid, safe CSS properties found in AI response"@)
            } else {
                Ok(s)
            },
        }
    }
}

/// The declarations of one rule in the stylesheet.
pub open spec fn declarations_css(p: KvSeq) -> Seq<char>
    decreases p.len(),
{
    if p.len() == 0 {
        Seq::empty()
    } else {
        declarations_css(p.drop_last()) + "  "@ + p.last().0 + ": "@ + p.last().1
            + " !important;\n"@
    }
}

/// One rule in the stylesheet.
pub open spec fn rule_css(r: (Seq<char>, KvSeq)) -> Seq<char> {
    r.0 + " {\n"@ + declarations_css(r.1) + "}\n\n"@
}

/// All rules in the stylesheet, in order.
pub open spec fn rules_css(rules: Seq<(Seq<char>, KvSeq)>) -> Seq<char>
    decreases rules.len(),
{
    if rules.len() == 0 {
        Seq::empty()
    } else {
        rules_css(rules.drop_last()) + rule_css(rules.last())
    }
}

/// The stylesheet that `compile_to_stylesheet` produces.
pub open spec fn stylesheet(rules: Seq<(Seq<char>, KvSeq)>) -> Seq<char> {
    "/* Halka AI Preview Mode - Temporary Sandbox Styles */\n"@ + rules_css(rules)
}

proof fn lemma_rules_error_persists(rules: Seq<(Seq<char>, KvSeq)>, k: int)
    requires
        0 <= k <= rules.len(),
        sanitized_rules(rules.subrange(0, k)) is Err,
    ensures
        sanitized_rules(rules) == sanitized_rules(rules.subrange(0, k)),
    decreases rules.len() - k,
{
    if k < rules.len() {
        assert(rules.drop_last().subrange(0, k) =~= rules.subrange(0, k));
        lemma_rules_error_persists(rules.drop_last(), k);
    } else {
        assert(rules.subrange(0, k) =~= rules);
    }
}

fn forbidden_char_error(c: char) -> (r: String)
    ensures
        r@ == forbidden_char_message(c),
{
    let mut r = String::from_str("Forbidden character '");
    push_char(&mut r, c);
    r.append("' in selector");
    r
}

impl CssValidator {
    /// Validates and sanitises an AI preview response: every rule's selector
    /// must pass, rules left without declarations are dropped, and at least
    /// one rule must remain.
    pub fn sanitize_response(response: AIPreviewResponse) -> (r: Result<AIPreviewResponse, String>)
        ensures
            match r {
                Ok(out) => {
                    &&& response_verdict(rule_views(response.css_rules@)) == Ok::<
                        Seq<(Seq<char>, KvSeq)>,
                        Seq<char>,
                    >(rule_views(out.css_rules@))
                    &&& out.summary == response.summary
                    &&& out.explanation == response.explanation
                },
                Err(e) => response_verdict(rule_views(response.css_rules@)) == Err::<
                    Seq<(Seq<char>, KvSeq)>,
                    Seq<char>,
                >(e@),
            },
    {
        let ghost views = rule_views(response.css_rules@);
        if response.css_rules.len() == 0 {
            return Err(String::from_str("AI response contains no CSS rules"));
        }
        let mut sanitized: Vec<AICssRule> = Vec::new();
        let mut i: usize = 0;
        assert(views.subrange(0, 0) =~= Seq::<(Seq<char>, KvSeq)>::empty());
        assert(rule_views(sanitized@) =~= Seq::<(Seq<char>, KvSeq)>::empty());
        while i < response.css_rules.len()
            invariant
                i <= response.css_rules.len(),
                views == rule_views(response.css_rules@),
                sanitized_rules(views.subrange(0, i as int)) == Ok::<
                    Seq<(Seq<char>, KvSeq)>,
                    Seq<char>,
                >(rule_views(sanitized@)),
            decreases response.css_rules.len() - i,
        {
            let rule = &response.css_rules[i];
            assert(views.subrange(0, i + 1).drop_last() =~= views.subrange(0, i as int));
            assert(views.subrange(0, i + 1).last() == rule@);
            let sel = match CssValidator::sanitize_selector(rule.selector.as_str()) {
                Ok(s) => s,
                Err(e) => {
                    proof {
                        let pre = views.subrange(0, i + 1);
                        assert(selector_verdict(pre.last().0) == Err::<Seq<char>, Seq<char>>(e@));
                        assert(sanitized_rules(pre) == Err::<Seq<(Seq<char>, KvSeq)>, Seq<char>>(
                            e@,
                        ));
                        lemma_rules_error_persists(views, i + 1);
                        assert(views.len() > 0);
                    }
                    return Err(e);
                },
            };
            let props = match CssValidator::sanitize_properties(&rule.properties) {
                Ok(p) => p,
                Err(e) => {
                    return Err(e);
                },
            };
            if props.len() > 0 {
                let ghost before = rule_views(sanitized@);
                sanitized.push(AICssRule { selector: sel, properties: props });
                assert(rule_views(sanitized@) =~= before.push((sel@, props@)));
            }
            i = i + 1;
        }
        assert(views.subrange(0, i as int) =~= views);
        if sanitized.len() == 0 {
            return Err(String::from_str("No valid, safe CSS properties found in AI response"));
        }
        let mut response = response;
        response.css_rules = sanitized;
        Ok(response)
    }

    /// Trims a selector and refuses it when it is empty, holds a character
    /// that could break out of a rule, or is longer than 300 bytes.
    pub fn sanitize_selector(selector: &str) -> (r: Result<String, String>)
        ensures
            match r {
                Ok(s) => selector_verdict(selector@) == Ok::<Seq<char>, Seq<char>>(s@),
                Err(e) => selector_verdict(selector@) == Err::<Seq<char>, Seq<char>>(e@),
            },
    {
        let t = trim_str(selector);
        let ts = t.as_str();
        if ts.is_empty() {
            return Err(String::from_str("Empty selector"));
        }
        if contains_char(ts, '{') {
            return Err(forbidden_char_error('{'));
        }
        if contains_char(ts, '}') {
            return Err(forbidden_char_error('}'));
        }
        if contains_char(ts, ';') {
            return Err(forbidden_char_error(';'));
        }
        if contains_char(ts, '\\') {
            return Err(forbidden_char_error('\\'));
        }
        if contains_char(ts, '<') {
            return Err(forbidden_char_error('<'));
        }
        if contains_char(ts, '@') {
            return Err(forbidden_char_error('@'));
        }
        let v = chars_of(ts);
        if utf8_len_exceeds(&v, MAX_SELECTOR_BYTES) {
            return Err(String::from_str("Selector exceeds maximum allowed length"));
        }
        Ok(t)
    }

    /// Normalises declarations: names are trimmed and lowercased, values
    /// trimmed; empty or dangerous ones are dropped; trailing semicolons and
    /// `!important` are removed from values, and a value that is dangerous
    /// once cleaned is dropped too.
    pub fn sanitize_properties(properties: &StringMap) -> (r: Result<StringMap, String>)
        ensures
            r is Ok,
            r matches Ok(m) ==> m@ == sanitized_props(properties@),
    {
        let mut out = StringMap::new();
        let n = properties.len();
        let mut i: usize = 0;
        assert(properties@.subrange(0, 0) =~= Seq::<(Seq<char>, Seq<char>)>::empty());
        while i < n
            invariant
                i <= n == properties@.len(),
                out@ == sanitized_props(properties@.subrange(0, i as int)),
            decreases n - i,
        {
            proof {
                reveal_strlit("!important");
            }
            let ghost prefix = properties@.subrange(0, i + 1);
            assert(prefix.drop_last() =~= properties@.subrange(0, i as int));
            let key = properties.key(i);
            let val = properties.value(i);
            assert(prefix.last() == (key@, val@));
            let key_trimmed = trim_str(key.as_str());
            let key_norm = to_lowercase_str(key_trimmed.as_str());
            let val_norm = trim_str(val.as_str());
            if !key_norm.as_str().is_empty() && !val_norm.as_str().is_empty()
                && !Self::is_forbidden_property(key_norm.as_str())
                && !Self::is_forbidden_value(val_norm.as_str()) {
                let stripped = strip_trailing_str(val_norm.as_str(), ';');
                let removed = remove_all_str(stripped.as_str(), "!important");
                let clean_val = trim_str(removed.as_str());
                if !clean_val.as_str().is_empty() && !Self::is_forbidden_value(clean_val.as_str()) {
                    out.insert(key_norm, clean_val);
                }
            }
            i = i + 1;
        }
        assert(properties@.subrange(0, n as int) =~= properties@);
        Ok(out)
    }

    /// Whether a property name is forbidden.
    fn is_forbidden_property(prop: &str) -> (r: bool)
        ensures
            r == forbidden_property(prop@),
    {
        starts_with_str(prop, "behavior") || starts_with_str(prop, "-moz-binding")
            || starts_with_str(prop, "binding") || starts_with_str(prop, "content")
    }

    /// Whether a value carries a script or exploit payload.
    fn is_forbidden_value(val: &str) -> (r: bool)
        ensures
            r == forbidden_value(val@),
    {
        let lower = to_lowercase_str(val);
        let l = lower.as_str();
        contains_str(l, "javascript:") || contains_str(l, "vbscript:") || contains_str(
            l,
            "data:text/html",
        ) || contains_str(l, "expression(") || contains_str(l, "-moz-binding") || contains_str(
            l,
            "@import",
        ) || contains_str(l, "</style>") || contains_str(l, "<script") || contains_str(l, "url(")
    }

    /// Generates the preview stylesheet: every declaration is marked `!important`.
    pub fn compile_to_stylesheet(rules: &[AICssRule]) -> (css: String)
        ensures
            css@ == stylesheet(rule_views(rules@)),
    {
        let mut css = String::from_str("/* Halka AI Preview Mode - Temporary Sandbox Styles */\n");
        let ghost views = rule_views(rules@);
        let mut i: usize = 0;
        assert(views.subrange(0, 0) =~= Seq::<(Seq<char>, KvSeq)>::empty());
        while i < rules.len()
            invariant
                i <= rules.len(),
                views == rule_views(rules@),
                css@ == stylesheet(views.subrange(0, i as int)),
            decreases rules.len() - i,
        {
            let rule = &rules[i];
            assert(views.subrange(0, i + 1).drop_last() =~= views.subrange(0, i as int));
            assert(views.subrange(0, i + 1).last() == rule@);
            let ghost start = css@;
            css.append(rule.selector.as_str());
            css.append(" {\n");
            let n = rule.properties.len();
            let mut j: usize = 0;
            assert(rule.properties@.subrange(0, 0) =~= Seq::<(Seq<char>, Seq<char>)>::empty());
            while j < n
                invariant
                    j <= n == rule.properties@.len(),
                    css@ == start + rule.selector@ + " {\n"@ + declarations_css(
                        rule.properties@.subrange(0, j as int),
                    ),
                decreases n - j,
            {
                let ghost p = rule.properties@.subrange(0, j + 1);
                assert(p.drop_last() =~= rule.properties@.subrange(0, j as int));
                css.append("  ");
                css.append(rule.properties.key(j).as_str());
                css.append(": ");
                css.append(rule.properties.value(j).as_str());
                css.append(" !important;\n");
                j = j + 1;
            }
            assert(rule.properties@.subrange(0, n as int) =~= rule.properties@);
            css.append("}\n\n");
            i = i + 1;
        }
        assert(views.subrange(0, i as int) =~= views);
        css
    }
}


// ---------------------------------------------------------------------------
// Laws of the sanitiser
// ---------------------------------------------------------------------------

/// An accepted selector is non-empty, trimmed, free of `{ } ; \ < @`, at most
/// 300 bytes long, and accepted again unchanged.
pub proof fn law_selector_accepted_is_safe(s: Seq<char>)
    requires
        selector_verdict(s) is Ok,
    ensures
        ({
            let t = selector_verdict(s)->Ok_0;
            &&& t.len() > 0
            &&& trimmed(t) == t
            &&& !t.contains('{') && !t.contains('}') && !t.contains(';')
            &&& !t.contains('\\') && !t.contains('<') && !t.contains('@')
            &&& utf8_len(t) <= MAX_SELECTOR_BYTES
            &&& selector_verdict(t) == Ok::<Seq<char>, Seq<char>>(t)
        }),
{
    lemma_trimmed_idempotent(s);
}

/// What one kept declaration looks like: a non-empty name that is not
/// forbidden, and a non-empty trimmed value that is not forbidden and came
/// from a value that was not forbidden.
pub proof fn lemma_sanitized_entry_shape(k: Seq<char>, v: Seq<char>)
    requires
        sanitized_entry(k, v) is Some,
    ensures
        ({
            let (kn, cv) = sanitized_entry(k, v)->0;
            &&& kn == lowercase(trimmed(k))
            &&& kn.len() > 0
            &&& !forbidden_property(kn)
            &&& cv.len() > 0
            &&& trimmed(cv) == cv
            &&& !forbidden_value(trimmed(v))
            &&& !forbidden_value(cv)
        }),
{
    let vn = trimmed(v);
    lemma_trimmed_idempotent(remove_all(strip_trailing(vn, ';'), "!important"@));
}

/// Every declaration that `sanitize_properties` keeps is the normalised form
/// of one of the input declarations, and the kept names are distinct.
pub proof fn law_sanitized_props_come_from_input(entries: KvSeq)
    ensures
        kv_keys_distinct(sanitized_props(entries)),
        forall|i: int|
            0 <= i < sanitized_props(entries).len() ==> exists|j: int|
                0 <= j < entries.len() && sanitized_entry(entries[j].0, entries[j].1) == Some(
                    #[trigger] sanitized_props(entries)[i],
                ),
    decreases entries.len(),
{
    if entries.len() > 0 {
        let rest = entries.drop_last();
        law_sanitized_props_come_from_input(rest);
        let acc = sanitized_props(rest);
        let last = entries.last();
        let r = sanitized_props(entries);
        match sanitized_entry(last.0, last.1) {
            Some(e) => {
                lemma_kv_insert_distinct(acc, e.0, e.1);
                assert forall|i: int| 0 <= i < r.len() implies exists|j: int|
                    0 <= j < entries.len() && sanitized_entry(entries[j].0, entries[j].1) == Some(
                        #[trigger] r[i],
                    ) by {
                    if r[i] == e {
                        assert(entries[entries.len() - 1] == last);
                    } else {
                        assert(i < acc.len());
                        assert(r[i] == acc[i]) by {
                            if crate::kv_map::kv_has_key(acc, e.0) {
                            } else {
                            }
                        }
                        let j = choose|j: int|
                            0 <= j < rest.len() && sanitized_entry(rest[j].0, rest[j].1) == Some(
                                #[trigger] acc[i],
                            );
                        assert(entries[j] == rest[j]);
                    }
                }
            },
            None => {
                assert forall|i: int| 0 <= i < r.len() implies exists|j: int|
                    0 <= j < entries.len() && sanitized_entry(entries[j].0, entries[j].1) == Some(
                        #[trigger] r[i],
                    ) by {
                    let j = choose|j: int|
                        0 <= j < rest.len() && sanitized_entry(rest[j].0, rest[j].1) == Some(
                            #[trigger] acc[i],
                        );
                    assert(entries[j] == rest[j]);
                }
            },
        }
    }
}

/// Every declaration that `sanitize_properties` keeps is safe: its name is
/// non-empty, trimmed and lowercased from an input name, and starts with no
/// forbidden name; its value is non-empty and trimmed, and its lowercase form
/// holds none of the dangerous keywords.
pub proof fn law_sanitized_props_safe(entries: KvSeq)
    ensures
        forall|i: int|
            0 <= i < sanitized_props(entries).len() ==> {
                let (k, v) = #[trigger] sanitized_props(entries)[i];
                &&& k.len() > 0
                &&& !forbidden_property(k)
                &&& exists|j: int| 0 <= j < entries.len() && k == lowercase(trimmed(entries[j].0))
                &&& v.len() > 0
                &&& trimmed(v) == v
                &&& !forbidden_value(v)
            },
{
    law_sanitized_props_come_from_input(entries);
    assert forall|i: int| 0 <= i < sanitized_props(entries).len() implies {
        let (k, v) = #[trigger] sanitized_props(entries)[i];
        &&& k.len() > 0
        &&& !forbidden_property(k)
        &&& exists|j: int| 0 <= j < entries.len() && k == lowercase(trimmed(entries[j].0))
        &&& v.len() > 0
        &&& trimmed(v) == v
        &&& !forbidden_value(v)
    } by {
        let e = sanitized_props(entries)[i];
        let j = choose|j: int|
            0 <= j < entries.len() && sanitized_entry(entries[j].0, entries[j].1) == Some(
                #[trigger] sanitized_props(entries)[i],
            );
        lemma_sanitized_entry_shape(entries[j].0, entries[j].1);
    }
}

/// A successfully sanitised response has at least one rule; every rule has
/// declarations and a selector that the sanitiser accepts unchanged, and
/// every one of its declarations has a name that is not forbidden and a value
/// that is not dangerous; and there are no more rules than in the input.
pub proof fn law_sanitized_response_shape(rules: Seq<(Seq<char>, KvSeq)>)
    requires
        response_verdict(rules) is Ok,
    ensures
        ({
            let out = response_verdict(rules)->Ok_0;
            &&& out.len() > 0
            &&& out.len() <= rules.len()
            &&& forall|i: int|
                0 <= i < out.len() ==> #[trigger] out[i].1.len() > 0 && selector_verdict(out[i].0)
                    == Ok::<Seq<char>, Seq<char>>(out[i].0)
            &&& forall|i: int, m: int|
                0 <= i < out.len() && 0 <= m < out[i].1.len() ==> !forbidden_property(
                    #[trigger] out[i].1[m].0,
                ) && !forbidden_value(out[i].1[m].1)
        }),
{
    lemma_sanitized_rules_shape(rules);
    let out = response_verdict(rules)->Ok_0;
    assert forall|i: int, m: int| 0 <= i < out.len() && 0 <= m < out[i].1.len() implies !forbidden_property(
        #[trigger] out[i].1[m].0,
    ) && !forbidden_value(out[i].1[m].1) by {
        let j = choose|j: int| 0 <= j < rules.len() && out[i].1 == sanitized_props(#[trigger] rules[j].1);
        law_sanitized_props_safe(rules[j].1);
        assert(sanitized_props(rules[j].1)[m] == out[i].1[m]);
    }
}

proof fn lemma_sanitized_rules_shape(rules: Seq<(Seq<char>, KvSeq)>)
    requires
        sanitized_rules(rules) is Ok,
    ensures
        ({
            let out = sanitized_rules(rules)->Ok_0;
            &&& out.len() <= rules.len()
            &&& forall|i: int|
                0 <= i < out.len() ==> #[trigger] out[i].1.len() > 0 && selector_verdict(out[i].0)
                    == Ok::<Seq<char>, Seq<char>>(out[i].0)
            &&& forall|i: int|
                0 <= i < out.len() ==> exists|j: int|
                    0 <= j < rules.len() && #[trigger] out[i].1 == sanitized_props(#[trigger] rules[j].1)
        }),
    decreases rules.len(),
{
    if rules.len() > 0 {
        let rest = rules.drop_last();
        lemma_sanitized_rules_shape(rest);
        let last = rules.last();
        if selector_verdict(last.0) is Ok {
            law_selector_accepted_is_safe(last.0);
        }
        let out = sanitized_rules(rules)->Ok_0;
        let acc = sanitized_rules(rest)->Ok_0;
        assert forall|i: int| 0 <= i < out.len() implies exists|j: int|
            0 <= j < rules.len() && #[trigger] out[i].1 == sanitized_props(#[trigger] rules[j].1) by {
            if i < acc.len() {
                assert(out[i] == acc[i]);
                let j = choose|j: int|
                    0 <= j < rest.len() && #[trigger] acc[i].1 == sanitized_props(#[trigger] rest[j].1);
                assert(rules[j] == rest[j]);
            } else {
                assert(rules[rules.len() - 1] == last);
            }
        }
    }
}


/// The sanitised declarations hold `k` with value `v` once a declaration for
/// `k` has been stored, whatever later declarations of other names do.
proof fn lemma_declaration_survives(entries: KvSeq, i: int, k: Seq<char>, v: Seq<char>)
    requires
        0 <= i < entries.len(),
        sanitized_entry(entries[i].0, entries[i].1) == Some((k, v)),
        forall|j: int| i < j < entries.len() ==> lowercase(trimmed(#[trigger] entries[j].0)) != k,
    ensures
        kv_lookup(sanitized_props(entries), k) == Some(v),
    decreases entries.len(),
{
    let rest = entries.drop_last();
    law_sanitized_props_come_from_input(rest);
    let acc = sanitized_props(rest);
    let last = entries.last();
    if i == entries.len() - 1 {
        law_lookup_after_insert(acc, k, v, k);
    } else {
        assert forall|j: int| i < j < rest.len() implies lowercase(trimmed(#[trigger] rest[j].0)) != k by {
            assert(rest[j] == entries[j]);
        }
        assert(rest[i] == entries[i]);
        lemma_declaration_survives(rest, i, k, v);
        assert(lowercase(trimmed(entries[entries.len() - 1].0)) != k);
        match sanitized_entry(last.0, last.1) {
            Some(e) => {
                law_lookup_after_insert(acc, e.0, e.1, k);
            },
            None => {},
        }
    }
}

/// A safe declaration is kept. When a declaration's trimmed, lowercased name
/// is non-empty and starts with none of `behavior`, `-moz-binding`, `binding`
/// and `content`, and its trimmed value, both as given and once trailing `;`
/// and every `!important` are cut out and it is trimmed again, is non-empty
/// and in lowercase holds none of `javascript:`, `vbscript:`,
/// `data:text/html`, `expression(`, `-moz-binding`, `@import`, `</style>`,
/// `<script` and `url(`, then, unless a later declaration has the same name,
/// the sanitised declarations map that name to the cleaned value.
pub proof fn law_safe_declaration_is_kept(entries: KvSeq, i: int)
    requires
        0 <= i < entries.len(),
        ({
            let name = lowercase(trimmed(entries[i].0));
            let value = trimmed(entries[i].1);
            let clean = trimmed(remove_all(strip_trailing(value, ';'), "!important"@));
            &&& name.len() > 0
            &&& !has_prefix(name, "behavior"@)
            &&& !has_prefix(name, "-moz-binding"@)
            &&& !has_prefix(name, "binding"@)
            &&& !has_prefix(name, "content"@)
            &&& value.len() > 0
            &&& clean.len() > 0
            &&& !has_substring(lowercase(value), "javascript:"@)
            &&& !has_substring(lowercase(value), "vbscript:"@)
            &&& !has_substring(lowercase(value), "data:text/html"@)
            &&& !has_substring(lowercase(value), "expression("@)
            &&& !has_substring(lowercase(value), "-moz-binding"@)
            &&& !has_substring(lowercase(value), "@import"@)
            &&& !has_substring(lowercase(value), "</style>"@)
            &&& !has_substring(lowercase(value), "<script"@)
            &&& !has_substring(lowercase(value), "url("@)
            &&& !has_substring(lowercase(clean), "javascript:"@)
            &&& !has_substring(lowercase(clean), "vbscript:"@)
            &&& !has_substring(lowercase(clean), "data:text/html"@)
            &&& !has_substring(lowercase(clean), "expression("@)
            &&& !has_substring(lowercase(clean), "-moz-binding"@)
            &&& !has_substring(lowercase(clean), "@import"@)
            &&& !has_substring(lowercase(clean), "</style>"@)
            &&& !has_substring(lowercase(clean), "<script"@)
            &&& !has_substring(lowercase(clean), "url("@)
        }),
        forall|j: int|
            i < j < entries.len() ==> lowercase(trimmed(#[trigger] entries[j].0)) != lowercase(
                trimmed(entries[i].0),
            ),
    ensures
        kv_lookup(sanitized_props(entries), lowercase(trimmed(entries[i].0))) == Some(
            trimmed(remove_all(strip_trailing(trimmed(entries[i].1), ';'), "!important"@)),
        ),
{
    let name = lowercase(trimmed(entries[i].0));
    let clean = trimmed(remove_all(strip_trailing(trimmed(entries[i].1), ';'), "!important"@));
    assert(sanitized_entry(entries[i].0, entries[i].1) == Some((name, clean)));
    lemma_declaration_survives(entries, i, name, clean);
}

/// A plain selector is accepted as it stands, trimmed: when the trimmed
/// selector is non-empty, holds none of `{ } ; \ < @` and takes at most 300
/// bytes, the answer is that trimmed selector.
pub proof fn law_plain_selector_is_accepted(s: Seq<char>)
    requires
        ({
            let t = trimmed(s);
            &&& t.len() > 0
            &&& !t.contains('{') && !t.contains('}') && !t.contains(';')
            &&& !t.contains('\\') && !t.contains('<') && !t.contains('@')
            &&& utf8_len(t) <= 300
        }),
    ensures
        selector_verdict(s) == Ok::<Seq<char>, Seq<char>>(trimmed(s)),
{
}

/// Whether a rule keeps any declaration once sanitised.
pub open spec fn keeps_declarations(r: (Seq<char>, KvSeq)) -> bool {
    sanitized_props(r.1).len() > 0
}

/// A rule as the sanitiser hands it on: trimmed selector, sanitised declarations.
pub open spec fn cleaned_rule(r: (Seq<char>, KvSeq)) -> (Seq<char>, KvSeq) {
    (trimmed(r.0), sanitized_props(r.1))
}

proof fn lemma_sanitized_rules_are_the_kept_ones(rules: Seq<(Seq<char>, KvSeq)>)
    requires
        sanitized_rules(rules) is Ok,
    ensures
        forall|j: int|
            0 <= j < rules.len() ==> selector_verdict(#[trigger] rules[j].0) == Ok::<
                Seq<char>,
                Seq<char>,
            >(trimmed(rules[j].0)),
        sanitized_rules(rules)->Ok_0 == rules.filter(|r: (Seq<char>, KvSeq)| keeps_declarations(r)).map_values(
            |r: (Seq<char>, KvSeq)| cleaned_rule(r),
        ),
    decreases rules.len(),
{
    reveal(Seq::filter);
    if rules.len() > 0 {
        let rest = rules.drop_last();
        lemma_sanitized_rules_are_the_kept_ones(rest);
        assert forall|j: int| 0 <= j < rules.len() implies selector_verdict(#[trigger] rules[j].0)
            == Ok::<Seq<char>, Seq<char>>(trimmed(rules[j].0)) by {
            if j < rest.len() {
                assert(rest[j] == rules[j]);
            }
        }
        let f = rules.filter(|r: (Seq<char>, KvSeq)| keeps_declarations(r));
        let g = rest.filter(|r: (Seq<char>, KvSeq)| keeps_declarations(r));
        if keeps_declarations(rules.last()) {
            assert(f == g.push(rules.last()));
            assert(f.map_values(|r: (Seq<char>, KvSeq)| cleaned_rule(r)) =~= g.map_values(
                |r: (Seq<char>, KvSeq)| cleaned_rule(r),
            ).push(cleaned_rule(rules.last())));
        } else {
            assert(f == g);
        }
    } else {
        assert(rules.filter(|r: (Seq<char>, KvSeq)| keeps_declarations(r)).len() == 0);
        assert(rules.filter(|r: (Seq<char>, KvSeq)| keeps_declarations(r)).map_values(
            |r: (Seq<char>, KvSeq)| cleaned_rule(r),
        ) =~= Seq::<(Seq<char>, KvSeq)>::empty());
    }
}

/// A successful sanitising keeps every rule: every selector was accepted as
/// its trimmed form, and the answer holds, in input order, each input rule
/// that keeps any declaration, with its trimmed selector and its sanitised
/// declarations, and no other rule.
pub proof fn law_sanitized_response_keeps_every_rule(rules: Seq<(Seq<char>, KvSeq)>)
    requires
        response_verdict(rules) is Ok,
    ensures
        forall|j: int|
            0 <= j < rules.len() ==> selector_verdict(#[trigger] rules[j].0) == Ok::<
                Seq<char>,
                Seq<char>,
            >(trimmed(rules[j].0)),
        response_verdict(rules)->Ok_0 == rules.filter(|r: (Seq<char>, KvSeq)| keeps_declarations(r)).map_values(
            |r: (Seq<char>, KvSeq)| cleaned_rule(r),
        ),
{
    lemma_sanitized_rules_are_the_kept_ones(rules);
}

/// The stylesheet line of one declaration.
pub open spec fn declaration_line(k: Seq<char>, v: Seq<char>) -> Seq<char> {
    "  "@ + k + ": "@ + v + " !important;\n"@
}

proof fn lemma_declarations_contain(p: KvSeq, j: int)
    requires
        0 <= j < p.len(),
    ensures
        has_substring(declarations_css(p), declaration_line(p[j].0, p[j].1)),
    decreases p.len(),
{
    let rest = p.drop_last();
    let line = declaration_line(p.last().0, p.last().1);
    assert(declarations_css(p) =~= declarations_css(rest) + line);
    if j == p.len() - 1 {
        lemma_substring_self(line);
        lemma_substring_in_suffix(declarations_css(rest), line, line);
    } else {
        lemma_declarations_contain(rest, j);
        assert(rest[j] == p[j]);
        lemma_substring_in_prefix(declarations_css(rest), line, declaration_line(p[j].0, p[j].1));
    }
}

proof fn lemma_rules_contain(rules: Seq<(Seq<char>, KvSeq)>, i: int, j: int)
    requires
        0 <= i < rules.len(),
        0 <= j < rules[i].1.len(),
    ensures
        has_substring(rules_css(rules), declaration_line(rules[i].1[j].0, rules[i].1[j].1)),
    decreases rules.len(),
{
    let line = declaration_line(rules[i].1[j].0, rules[i].1[j].1);
    let rest = rules.drop_last();
    if i == rules.len() - 1 {
        let r = rules.last();
        lemma_declarations_contain(r.1, j);
        lemma_substring_in_suffix(r.0 + " {\n"@, declarations_css(r.1), line);
        lemma_substring_in_prefix(r.0 + " {\n"@ + declarations_css(r.1), "}\n\n"@, line);
        lemma_substring_in_suffix(rules_css(rest), rule_css(r), line);
    } else {
        lemma_rules_contain(rest, i, j);
        assert(rest[i] == rules[i]);
        lemma_substring_in_prefix(rules_css(rest), rule_css(rules.last()), line);
    }
}

/// Every declaration of every compiled rule appears in the stylesheet marked `!important`.
pub proof fn law_stylesheet_marks_important(rules: Seq<(Seq<char>, KvSeq)>, i: int, j: int)
    requires
        0 <= i < rules.len(),
        0 <= j < rules[i].1.len(),
    ensures
        has_substring(stylesheet(rules), declaration_line(rules[i].1[j].0, rules[i].1[j].1)),
{
    lemma_rules_contain(rules, i, j);
    lemma_substring_in_suffix(
        "/* Halka AI Preview Mode - Temporary Sandbox Styles */\n"@,
        rules_css(rules),
        declaration_line(rules[i].1[j].0, rules[i].1[j].1),
    );
}

} // verus!
