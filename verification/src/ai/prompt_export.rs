//! The deterministic implementation prompt exported from a preview.
use vstd::prelude::*;
use crate::ai::AIExportRequest;
use crate::ai::validator::{AICssRule, rule_views};
use crate::kv_map::{KvSeq, StringMap, kv_lookup};
use crate::text::{
    str_eq,
    has_substring, lemma_substring_in_middle, lemma_substring_in_prefix, lemma_substring_in_suffix,
    lemma_substring_self, chars_of, char_utf8_width, string_from_chars, trim_str, trimmed,
    utf8_len,
};

verus! {

/// The characters of each string.
pub open spec fn str_views(v: Seq<String>) -> Seq<Seq<char>> {
    v.map_values(|s: String| s@)
}

/// `parts` joined by `sep` (what `[String]::join` returns).
pub open spec fn join_with(parts: Seq<Seq<char>>, sep: Seq<char>) -> Seq<char>
    decreases parts.len(),
{
    if parts.len() == 0 {
        Seq::empty()
    } else if parts.len() == 1 {
        parts[0]
    } else {
        join_with(parts.drop_last(), sep) + sep + parts.last()
    }
}

/// Longest text, in UTF-8 bytes, quoted whole in the prompt.
pub const MAX_QUOTED_TEXT_BYTES: usize = 60;

/// The text can be cut after 60 bytes, as the exporter does for longer texts:
/// some prefix of it is exactly 60 bytes long.
pub open spec fn text_cut_ok(t: Seq<char>) -> bool {
    utf8_len(t) > MAX_QUOTED_TEXT_BYTES ==> exists|k: int|
        0 <= k <= t.len() && #[trigger] utf8_len(t.subrange(0, k)) == MAX_QUOTED_TEXT_BYTES
}

/// The text as quoted in the prompt: whole, or its first 60 bytes and `...`.
pub open spec fn quoted_text(t: Seq<char>) -> Seq<char> {
    if utf8_len(t) > MAX_QUOTED_TEXT_BYTES {
        t.subrange(
            0,
            choose|k: int|
                0 <= k <= t.len() && #[trigger] utf8_len(t.subrange(0, k)) == MAX_QUOTED_TEXT_BYTES,
        ) + "..."@
    } else {
        t
    }
}

/// The line for one applied declaration; it names the computed value it
/// replaces when that differs.
pub open spec fn change_line(prop: Seq<char>, val: Seq<char>, computed: KvSeq) -> Seq<char> {
    match kv_lookup(computed, prop) {
        Some(orig) => if orig != val {
            "- Set `"@ + prop + "` to `"@ + val + "` (previously `"@ + orig + "`)\n"@
        } else {
            "- Set `"@ + prop + "` to `"@ + val + "`\n"@
        },
        None => "- Set `"@ + prop + "` to `"@ + val + "`\n"@,
    }
}

/// The lines for a rule's declarations.
pub open spec fn change_lines(props: KvSeq, computed: KvSeq) -> Seq<char>
    decreases props.len(),
{
    if props.len() == 0 {
        Seq::empty()
    } else {
        change_lines(props.drop_last(), computed) + change_line(
            props.last().0,
            props.last().1,
            computed,
        )
    }
}

/// The block for one applied rule.
pub open spec fn rule_block(rule: (Seq<char>, KvSeq), selector: Seq<char>, computed: KvSeq) -> Seq<
    char,
> {
    (if rule.0 != selector {
        "For `"@ + rule.0 + "`:\n"@
    } else {
        Seq::empty()
    }) + change_lines(rule.1, computed) + "\n"@
}

/// The blocks for the applied rules, in order.
pub open spec fn rule_blocks(rules: Seq<(Seq<char>, KvSeq)>, selector: Seq<char>, computed: KvSeq) -> Seq<
    char,
>
    decreases rules.len(),
{
    if rules.len() == 0 {
        Seq::empty()
    } else {
        rule_blocks(rules.drop_last(), selector, computed) + rule_block(
            rules.last(),
            selector,
            computed,
        )
    }
}

/// The "Required CSS Changes" body.
pub open spec fn changes_section(rules: Seq<(Seq<char>, KvSeq)>, selector: Seq<char>, computed: KvSeq) -> Seq<
    char,
> {
    if rules.len() == 0 {
        "*(No CSS modifications were applied in preview)*\n\n"@
    } else {
        rule_blocks(rules, selector, computed)
    }
}

/// The design goal line, when the instruction is not blank.
pub open spec fn goal_part(instruction: Seq<char>) -> Seq<char> {
    let goal = trimmed(instruction);
    if goal.len() > 0 {
        "**Design Goal**: "@ + goal + "\n\n"@
    } else {
        Seq::empty()
    }
}

/// The element id line, when the element has an id.
pub open spec fn id_part(id: Option<String>) -> Seq<char> {
    match id {
        Some(id) => "- **ID**: `#"@ + id@ + "`\n"@,
        None => Seq::empty(),
    }
}

/// The classes line, when the element has classes.
pub open spec fn classes_part(classes: Seq<String>) -> Seq<char> {
    if classes.len() > 0 {
        "- **Classes**: `."@ + join_with(str_views(classes), " ."@) + "`\n"@
    } else {
        Seq::empty()
    }
}

/// The text line, when the element has text.
pub open spec fn text_part(text: Option<String>) -> Seq<char> {
    match text {
        Some(t) => "- **Text content**: \""@ + quoted_text(t@) + "\"\n"@,
        None => Seq::empty(),
    }
}

/// The whole exported prompt: goal, target element, required changes and
/// standing constraints.
pub open spec fn export_prompt_text(req: AIExportRequest) -> Seq<char> {
    let el = req.element_context;
    "Please implement the following visual design updates to `"@ + el.selector@ + "`.\n\n"@
        + goal_part(req.instruction@) + "### Target Component / Element\n"@ + "- **Selector**: `"@
        + el.selector@ + "`\n"@ + "- **Tag**: `<"@ + el.tag@ + ">`\n"@ + id_part(el.id)
        + classes_part(el.classes@) + text_part(el.text) + "\n"@ + "### Required CSS Changes\n"@
        + changes_section(rule_views(req.applied_css_rules@), el.selector@, el.computed_styles@)
        + "### Constraints & Guidelines\n"@
        + "- Preserve all existing functionality, event handlers, and business logic.\n"@
        + "- Ensure the modified component remains responsive across desktop and mobile screens.\n"@
        + "- Maintain existing theme variables and color palettes where applicable.\n"@
        + "- Do not alter unrelated sibling or parent elements.\n"@
}

/// The exporter can cut the element's text (the only input it refuses).
pub open spec fn export_request_ok(req: AIExportRequest) -> bool {
    match req.element_context.text {
        Some(t) => text_cut_ok(t@),
        None => true,
    }
}

/// Longer prefixes take more bytes.
proof fn lemma_utf8_len_strictly_increasing(t: Seq<char>, a: int, b: int)
    requires
        0 <= a < b <= t.len(),
    ensures
        utf8_len(t.subrange(0, a)) < utf8_len(t.subrange(0, b)),
    decreases b - a,
{
    let p = t.subrange(0, b);
    assert(p.drop_last() =~= t.subrange(0, b - 1));
    if a < b - 1 {
        lemma_utf8_len_strictly_increasing(t, a, b - 1);
    }
}

/// The first 60 bytes of `t` followed by `...`.
fn cut_text(t: &String) -> (r: String)
    requires
        text_cut_ok(t@),
        utf8_len(t@) > MAX_QUOTED_TEXT_BYTES,
    ensures
        r@ == quoted_text(t@),
{
    let v = chars_of(t.as_str());
    let ghost k = choose|k: int|
        0 <= k <= t@.len() && #[trigger] utf8_len(t@.subrange(0, k)) == MAX_QUOTED_TEXT_BYTES;
    let mut total: usize = 0;
    let mut i: usize = 0;
    assert(v@.subrange(0, 0) =~= Seq::<char>::empty());
    while total < MAX_QUOTED_TEXT_BYTES
        invariant
            v@ == t@,
            0 <= k <= t@.len(),
            utf8_len(t@.subrange(0, k)) == MAX_QUOTED_TEXT_BYTES,
            utf8_len(t@) > MAX_QUOTED_TEXT_BYTES,
            i <= v.len(),
            i <= k,
            total == utf8_len(v@.subrange(0, i as int)),
            total <= MAX_QUOTED_TEXT_BYTES,
        decreases k - i,
    {
        if i == v.len() {
            proof {
                assert(v@.subrange(0, i as int) =~= v@);
            }
        }
        assert(v@.subrange(0, i + 1).drop_last() =~= v@.subrange(0, i as int));
        total = total + char_utf8_width(v[i]);
        i = i + 1;
        proof {
            if i > k {
                lemma_utf8_len_strictly_increasing(t@, k, i - 1);
            } else if i < k {
                lemma_utf8_len_strictly_increasing(t@, i as int, k);
            }
        }
    }
    proof {
        if i < k {
            lemma_utf8_len_strictly_increasing(t@, i as int, k);
        }
        assert(i == k);
    }
    let mut r = string_from_chars(&v, 0, i);
    r.append("...");
    r
}

/// The deterministic prompt generator.
pub struct PromptExporter;

impl PromptExporter {
    /// Generates a developer-ready implementation prompt from the preview
    /// state: goal, target element, the applied declarations (with the
    /// computed values they replace) and standing constraints.
    pub fn generate_export_prompt(req: &AIExportRequest) -> (prompt: String)
        requires
            export_request_ok(*req),
        ensures
            prompt@ == export_prompt_text(*req),
    {
        let el = &req.element_context;
        let mut prompt = String::new();
        prompt.append("Please implement the following visual design updates to `");
        assert(prompt@ =~= "Please implement the following visual design updates to `"@);
        prompt.append(el.selector.as_str());
        prompt.append("`.\n\n");
        Self::append_goal(&mut prompt, &req.instruction);
        prompt.append("### Target Component / Element\n");
        prompt.append("- **Selector**: `");
        prompt.append(el.selector.as_str());
        prompt.append("`\n");
        prompt.append("- **Tag**: `<");
        prompt.append(el.tag.as_str());
        prompt.append(">`\n");
        Self::append_id(&mut prompt, &el.id);
        Self::append_classes(&mut prompt, &el.classes);
        Self::append_text(&mut prompt, &el.text);
        prompt.append("\n");
        prompt.append("### Required CSS Changes\n");
        Self::append_changes(&mut prompt, &req.applied_css_rules, &el.selector, &el.computed_styles);
        prompt.append("### Constraints & Guidelines\n");
        prompt.append("- Preserve all existing functionality, event handlers, and business logic.\n");
        prompt.append(
            "- Ensure the modified component remains responsive across desktop and mobile screens.\n",
        );
        prompt.append("- Maintain existing theme variables and color palettes where applicable.\n");
        prompt.append("- Do not alter unrelated sibling or parent elements.\n");
        prompt
    }

    /// Appends the design goal line.
    fn append_goal(prompt: &mut String, instruction: &String)
        ensures
            final(prompt)@ == old(prompt)@ + goal_part(instruction@),
    {
        let goal = trim_str(instruction.as_str());
        if !goal.as_str().is_empty() {
            prompt.append("**Design Goal**: ");
            prompt.append(goal.as_str());
            prompt.append("\n\n");
        }
        assert(prompt@ =~= old(prompt)@ + goal_part(instruction@));
    }

    /// Appends the id line.
    fn append_id(prompt: &mut String, id: &Option<String>)
        ensures
            final(prompt)@ == old(prompt)@ + id_part(*id),
    {
        match id {
            Some(id) => {
                prompt.append("- **ID**: `#");
                prompt.append(id.as_str());
                prompt.append("`\n");
            },
            None => {},
        }
        assert(prompt@ =~= old(prompt)@ + id_part(*id));
    }

    /// Appends the classes line.
    fn append_classes(prompt: &mut String, classes: &Vec<String>)
        ensures
            final(prompt)@ == old(prompt)@ + classes_part(classes@),
    {
        if classes.len() == 0 {
            assert(prompt@ =~= old(prompt)@ + classes_part(classes@));
            return;
        }
        prompt.append("- **Classes**: `.");
        let ghost before = prompt@;
        let ghost parts = str_views(classes@);
        let mut i: usize = 0;
        while i < classes.len()
            invariant
                0 < classes.len(),
                i <= classes.len(),
                parts == str_views(classes@),
                before == old(prompt)@ + "- **Classes**: `."@,
                i == 0 ==> prompt@ == before,
                i > 0 ==> prompt@ == before + join_with(parts.subrange(0, i as int), " ."@),
            decreases classes.len() - i,
        {
            let ghost sub = parts.subrange(0, i + 1);
            assert(sub.drop_last() =~= parts.subrange(0, i as int));
            if i > 0 {
                prompt.append(" .");
            }
            prompt.append(classes[i].as_str());
            assert(parts[i as int] == classes@[i as int]@);
            assert(prompt@ =~= before + join_with(sub, " ."@));
            i = i + 1;
        }
        assert(parts.subrange(0, i as int) =~= parts);
        prompt.append("`\n");
        assert(prompt@ =~= old(prompt)@ + classes_part(classes@));
    }

    /// Appends the text line.
    fn append_text(prompt: &mut String, text: &Option<String>)
        requires
            match text {
                Some(t) => text_cut_ok(t@),
                None => true,
            },
        ensures
            final(prompt)@ == old(prompt)@ + text_part(*text),
    {
        match text {
            Some(text) => {
                prompt.append("- **Text content**: \"");
                let text_chars = chars_of(text.as_str());
                if crate::text::utf8_len_exceeds(&text_chars, MAX_QUOTED_TEXT_BYTES) {
                    let cut = cut_text(text);
                    prompt.append(cut.as_str());
                } else {
                    prompt.append(text.as_str());
                }
                prompt.append("\"\n");
            },
            None => {},
        }
        assert(prompt@ =~= old(prompt)@ + text_part(*text));
    }

    /// Appends the "Required CSS Changes" body.
    fn append_changes(
        prompt: &mut String,
        rules: &Vec<AICssRule>,
        selector: &String,
        computed: &StringMap,
    )
        ensures
            final(prompt)@ == old(prompt)@ + changes_section(
                rule_views(rules@),
                selector@,
                computed@,
            ),
    {
        let ghost views = rule_views(rules@);
        if rules.len() == 0 {
            prompt.append("*(No CSS modifications were applied in preview)*\n\n");
        } else {
            let mut i: usize = 0;
            assert(views.subrange(0, 0) =~= Seq::<(Seq<char>, KvSeq)>::empty());
            assert(old(prompt)@ + rule_blocks(Seq::empty(), selector@, computed@) =~= old(prompt)@);
            while i < rules.len()
                invariant
                    i <= rules.len(),
                    views == rule_views(rules@),
                    prompt@ == old(prompt)@ + rule_blocks(
                        views.subrange(0, i as int),
                        selector@,
                        computed@,
                    ),
                decreases rules.len() - i,
            {
                let rule = &rules[i];
                assert(views.subrange(0, i + 1).drop_last() =~= views.subrange(0, i as int));
                assert(views.subrange(0, i + 1).last() == rule@);
                let ghost block_start = prompt@;
                if !str_eq(rule.selector.as_str(), selector.as_str()) {
                    prompt.append("For `");
                    prompt.append(rule.selector.as_str());
                    prompt.append("`:\n");
                }
                Self::append_change_lines(prompt, &rule.properties, computed);
                prompt.append("\n");
                assert(prompt@ =~= block_start + rule_block(rule@, selector@, computed@));
                i = i + 1;
            }
            assert(views.subrange(0, i as int) =~= views);
        }
    }

    /// Appends the lines for `props`.
    fn append_change_lines(prompt: &mut String, props: &StringMap, computed: &StringMap)
        ensures
            final(prompt)@ == old(prompt)@ + change_lines(props@, computed@),
    {
        let n = props.len();
        let mut j: usize = 0;
        assert(props@.subrange(0, 0) =~= Seq::<(Seq<char>, Seq<char>)>::empty());
        assert(old(prompt)@ + change_lines(Seq::empty(), computed@) =~= old(prompt)@);
        while j < n
            invariant
                j <= n == props@.len(),
                prompt@ == old(prompt)@ + change_lines(props@.subrange(0, j as int), computed@),
            decreases n - j,
        {
            let ghost sub = props@.subrange(0, j + 1);
            assert(sub.drop_last() =~= props@.subrange(0, j as int));
            let prop = props.key(j);
            let val = props.value(j);
            let ghost before = prompt@;
            prompt.append("- Set `");
            prompt.append(prop.as_str());
            prompt.append("` to `");
            prompt.append(val.as_str());
            match computed.get(prop.as_str()) {
                Some(orig) => {
                    if !str_eq(orig.as_str(), val.as_str()) {
                        prompt.append("` (previously `");
                        prompt.append(orig.as_str());
                        prompt.append("`)\n");
                    } else {
                        prompt.append("`\n");
                    }
                },
                None => {
                    prompt.append("`\n");
                },
            }
            assert(prompt@ =~= before + change_line(prop@, val@, computed@));
            j = j + 1;
        }
        assert(props@.subrange(0, n as int) =~= props@);
    }
}


/// How a change line starts: the declaration's name and new value.
pub open spec fn change_head(prop: Seq<char>, val: Seq<char>) -> Seq<char> {
    "- Set `"@ + prop + "` to `"@ + val
}

proof fn lemma_change_lines_contain(props: KvSeq, computed: KvSeq, j: int)
    requires
        0 <= j < props.len(),
    ensures
        has_substring(change_lines(props, computed), change_head(props[j].0, props[j].1)),
    decreases props.len(),
{
    let rest = props.drop_last();
    let (k, v) = props.last();
    let head = change_head(props[j].0, props[j].1);
    if j == props.len() - 1 {
        lemma_substring_self(head);
        let line = change_line(k, v, computed);
        let tail = if line =~= head + "` (previously `"@ + kv_lookup(computed, k)->0 + "`)\n"@ {
            "` (previously `"@ + kv_lookup(computed, k)->0 + "`)\n"@
        } else {
            "`\n"@
        };
        assert(line =~= head + tail);
        lemma_substring_in_prefix(head, tail, head);
        lemma_substring_in_suffix(change_lines(rest, computed), line, head);
    } else {
        lemma_change_lines_contain(rest, computed, j);
        assert(rest[j] == props[j]);
        lemma_substring_in_prefix(change_lines(rest, computed), change_line(k, v, computed), head);
    }
}

proof fn lemma_rule_blocks_contain(
    rules: Seq<(Seq<char>, KvSeq)>,
    selector: Seq<char>,
    computed: KvSeq,
    i: int,
    j: int,
)
    requires
        0 <= i < rules.len(),
        0 <= j < rules[i].1.len(),
    ensures
        has_substring(
            rule_blocks(rules, selector, computed),
            change_head(rules[i].1[j].0, rules[i].1[j].1),
        ),
    decreases rules.len(),
{
    let head = change_head(rules[i].1[j].0, rules[i].1[j].1);
    let rest = rules.drop_last();
    if i == rules.len() - 1 {
        let r = rules.last();
        lemma_change_lines_contain(r.1, computed, j);
        let pre = if r.0 != selector {
            "For `"@ + r.0 + "`:\n"@
        } else {
            Seq::empty()
        };
        lemma_substring_in_middle(pre, change_lines(r.1, computed), "\n"@, head);
        lemma_substring_in_suffix(
            rule_blocks(rest, selector, computed),
            rule_block(r, selector, computed),
            head,
        );
    } else {
        lemma_rule_blocks_contain(rest, selector, computed, i, j);
        assert(rest[i] == rules[i]);
        lemma_substring_in_prefix(
            rule_blocks(rest, selector, computed),
            rule_block(rules.last(), selector, computed),
            head,
        );
    }
}

/// Every declaration of every applied rule is listed in the exported prompt
/// as "- Set `name` to `value`".
pub proof fn law_prompt_lists_every_change(req: AIExportRequest, i: int, j: int)
    requires
        0 <= i < req.applied_css_rules@.len(),
        0 <= j < req.applied_css_rules@[i].properties@.len(),
    ensures
        has_substring(
            export_prompt_text(req),
            change_head(
                req.applied_css_rules@[i].properties@[j].0,
                req.applied_css_rules@[i].properties@[j].1,
            ),
        ),
{
    let el = req.element_context;
    let rules = rule_views(req.applied_css_rules@);
    let head = change_head(rules[i].1[j].0, rules[i].1[j].1);
    assert(rules[i] == req.applied_css_rules@[i]@);
    lemma_rule_blocks_contain(rules, el.selector@, el.computed_styles@, i, j);
    let mid = changes_section(rules, el.selector@, el.computed_styles@);
    let a = "Please implement the following visual design updates to `"@ + el.selector@ + "`.\n\n"@
        + goal_part(req.instruction@) + "### Target Component / Element\n"@ + "- **Selector**: `"@
        + el.selector@ + "`\n"@ + "- **Tag**: `<"@ + el.tag@ + ">`\n"@ + id_part(el.id)
        + classes_part(el.classes@) + text_part(el.text) + "\n"@ + "### Required CSS Changes\n"@;
    let b = "### Constraints & Guidelines\n"@
        + "- Preserve all existing functionality, event handlers, and business logic.\n"@
        + "- Ensure the modified component remains responsive across desktop and mobile screens.\n"@
        + "- Maintain existing theme variables and color palettes where applicable.\n"@
        + "- Do not alter unrelated sibling or parent elements.\n"@;
    lemma_substring_in_middle(a, mid, b, head);
    assert(export_prompt_text(req) =~= a + mid + b);
}

} // verus!
