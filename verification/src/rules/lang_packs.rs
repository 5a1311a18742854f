//! Language packs: rules for Rust doc comments and Python docstrings. They
//! are in the pack-specific category, which only the pack profiles (and the
//! aggressive one) let through.

use vstd::prelude::*;
use vstd::string::*;
use vstd::utf8::*;
use core::ops::Range;
use crate::bindings::{
    groups_in_text, regex_all_captures, regex_captures_all, regex_find, regex_find_spans,
    spans_in_text,
};
use crate::text::{
    at_boundary, boundary, line_col_at, line_col_from_offset, push_str, substring, text_of, trim_str,
    trimmed,
};
use super::pattern::{span_match, span_view, template, Template, TemplateView};
use super::{
    views, Category, ExplanationView, FileTypeFilter, KindView, Match, MatchKind, MatchView, RuleExplanation,
    Severity, Span,
};

verus! {

// ---------------------------------------------------------------------------
// Matches reported with their text trimmed
// ---------------------------------------------------------------------------

/// The match for the text in `[s, e)`, reported with that text trimmed.
pub open spec fn trimmed_view(b: Seq<u8>, s: int, e: int, t: TemplateView) -> MatchView {
    MatchView { original: trimmed(text_of(b, s, e)), ..span_view(b, s, e, t) }
}

/// One match per match of `pattern` in `content`, with trimmed text.
pub open spec fn trimmed_views(content: Seq<char>, pattern: Seq<char>, t: TemplateView) -> Seq<
    MatchView,
> {
    match regex_find_spans(pattern, content) {
        Some(v) => Seq::new(
            v.len(),
            |k: int| trimmed_view(encode_utf8(content), v[k].0 as int, v[k].1 as int, t),
        ),
        None => seq![],
    }
}

/// The match for the text of `content` in `[s, e)`, with trimmed text.
fn trimmed_match(content: &str, s: usize, e: usize, t: &Template) -> (m: Match)
    requires
        content.spec_bytes().len() < usize::MAX,
        s <= e,
        boundary(content.spec_bytes(), s as int),
        boundary(content.spec_bytes(), e as int),
    ensures
        m@ == trimmed_view(content.spec_bytes(), s as int, e as int, t@),
{
    let mut m = span_match(content, s, e, t);
    let text = substring(content, s, e);
    m.original = trim_str(text).to_owned();
    m
}

/// Appends one match per match of `pattern` in `content`, with trimmed text.
fn push_trimmed_matches(out: &mut Vec<Match>, content: &str, pattern: &str, t: &Template)
    requires
        content.spec_bytes().len() < usize::MAX,
    ensures
        views(final(out)@) == views(old(out)@) + trimmed_views(content@, pattern@, t@),
{
    let ghost start = views(out@);
    if let Some(v) = regex_find(pattern, content) {
        let mut i: usize = 0;
        while i < v.len()
            invariant
                i <= v@.len(),
                content.spec_bytes().len() < usize::MAX,
                spans_in_text(content.spec_bytes(), v@),
                regex_find_spans(pattern@, content@) == Some(v@),
                views(out@) == start + trimmed_views(content@, pattern@, t@).take(i as int),
            decreases v@.len() - i,
        {
            let (s, e) = v[i];
            assert(v@[i as int].0 <= v@[i as int].1);
            let m = trimmed_match(content, s, e, t);
            let ghost before = out@;
            let ghost tv = trimmed_views(content@, pattern@, t@);
            out.push(m);
            assert(views(out@) =~= views(before).push(m@));
            assert(tv.take(i + 1) =~= tv.take(i as int).push(tv[i as int]));
            i = i + 1;
        }
        assert(trimmed_views(content@, pattern@, t@).take(v@.len() as int) == trimmed_views(
            content@,
            pattern@,
            t@,
        ));
    } else {
        assert(start + Seq::<MatchView>::empty() == start);
    }
}

/// The template of a pack rule that deletes the line of what it matches.
pub open spec fn pack_line_template(rule_id: Seq<char>, confidence: u32, description: Seq<char>) -> TemplateView {
    TemplateView {
        rule_id,
        category: Category::PackSpecific,
        severity: Severity::Warn,
        confidence,
        kind: KindView::DeleteLine,
        suggestion: Seq::empty(),
        description,
    }
}

/// A template for a pack rule that deletes the line of what it matches.
fn pack_line(rule_id: &str, confidence: u32, description: &str) -> (t: Template)
    ensures
        t@ == pack_line_template(rule_id@, confidence, description@),
{
    proof {
        reveal_strlit("");
        assert(""@ =~= Seq::<char>::empty());
    }
    template(rule_id, Category::PackSpecific, Severity::Warn, confidence, MatchKind::DeleteLine, "", description)
}

// ---------------------------------------------------------------------------
// Rust pack
// ---------------------------------------------------------------------------

/// `///` lines that say "This function ..." or "Returns the ...".
pub open spec fn rust_verbose_doc_pattern() -> Seq<char> {
    r"(?im)^[ \t]*///[ \t]*(This (?:function|method|struct|enum|trait|impl|module) [a-zA-Z0-9_\s,]+\.|Returns? (?:the|a|an) [a-zA-Z0-9_\s]+\.)[ \t]*$"@
}

/// GPT-style Rust doc comments that restate what the item does.
pub struct RustVerboseDocRule;

impl RustVerboseDocRule {
    /// The rule's template.
    pub open spec fn spec_template() -> TemplateView {
        pack_line_template(
            "rust-verbose-doc"@,
            8000,
            "GPT-style Rust doc comment restates the obvious. Remove or replace with actual semantic information."@,
        )
    }

    /// Every match of the pattern, with its text trimmed.
    pub open spec fn spec_check(content: Seq<char>) -> Seq<MatchView> {
        trimmed_views(content, rust_verbose_doc_pattern(), Self::spec_template())
    }

    /// The rule's identifier.
    pub fn id(&self) -> (r: &'static str)
        ensures
            r@ == "rust-verbose-doc"@,
    {
        "rust-verbose-doc"
    }

    /// The rule's category.
    pub fn category(&self) -> (r: Category)
        ensures
            r == Category::PackSpecific,
    {
        Category::PackSpecific
    }

    /// The file types the rule applies to.
    pub fn file_type_filter(&self) -> (r: FileTypeFilter)
        ensures
            r == FileTypeFilter::CodeOnly,
    {
        FileTypeFilter::CodeOnly
    }

    /// One line deletion per verbose doc comment.
    pub fn check(&self, content: &str, _spans: Option<&[Span]>) -> (r: Vec<Match>)
        requires
            content.spec_bytes().len() < usize::MAX,
        ensures
            views(r@) == Self::spec_check(content@),
    {
        let t = pack_line(
            "rust-verbose-doc",
            8000,
            "GPT-style Rust doc comment restates the obvious. Remove or replace with actual semantic information.",
        );
        let mut out: Vec<Match> = Vec::new();
        assert(views(out@) =~= Seq::<MatchView>::empty());
        push_trimmed_matches(
            &mut out,
            content,
            r"(?im)^[ \t]*///[ \t]*(This (?:function|method|struct|enum|trait|impl|module) [a-zA-Z0-9_\s,]+\.|Returns? (?:the|a|an) [a-zA-Z0-9_\s]+\.)[ \t]*$",
            &t,
        );
        assert(views(out@) =~= Self::spec_check(content@));
        out
    }

    /// What the rule looks for and what it does.
    /// What the rule looks for and what its fix does.
    pub open spec fn spec_explanation(&self) -> ExplanationView {
        ExplanationView {
            pattern_summary: "Rust `///` doc comments starting with \"This function/method/struct…\" or \"Returns the/a…\""@,
            fix_behavior: "DeleteLine — removes the entire doc comment line"@,
            confidence: 8000,
            example_input: "/// This function processes the input data."@,
            example_output: "(line deleted)"@,
        }
    }

    /// What the rule looks for and what its fix does.
    pub fn explain(&self) -> (r: RuleExplanation)
        ensures
            r@ == self.spec_explanation(),
    {
        RuleExplanation {
            pattern_summary: "Rust `///` doc comments starting with \"This function/method/struct…\" or \"Returns the/a…\"".to_owned(),
            fix_behavior: "DeleteLine — removes the entire doc comment line".to_owned(),
            confidence: 8000,
            example_input: "/// This function processes the input data.".to_owned(),
            example_output: "(line deleted)".to_owned(),
        }
    }
}

/// `//!` lines that say "This module contains ..." or "The X module.".
pub open spec fn rust_mod_doc_pattern() -> Seq<char> {
    r"(?im)^[ \t]*//![ \t]*(This module (?:contains|provides|implements|defines|handles) .+\.|The [a-zA-Z0-9_]+ module\.)"@
}

/// Module doc comments that only repeat the module name.
pub struct RustTrivialModDocRule;

impl RustTrivialModDocRule {
    /// The rule's template.
    pub open spec fn spec_template() -> TemplateView {
        pack_line_template(
            "rust-trivial-mod-doc"@,
            7500,
            "Module doc comment restates the module name. Add real documentation."@,
        )
    }

    /// Every match of the pattern, with its text trimmed.
    pub open spec fn spec_check(content: Seq<char>) -> Seq<MatchView> {
        trimmed_views(content, rust_mod_doc_pattern(), Self::spec_template())
    }

    /// The rule's identifier.
    pub fn id(&self) -> (r: &'static str)
        ensures
            r@ == "rust-trivial-mod-doc"@,
    {
        "rust-trivial-mod-doc"
    }

    /// The rule's category.
    pub fn category(&self) -> (r: Category)
        ensures
            r == Category::PackSpecific,
    {
        Category::PackSpecific
    }

    /// The file types the rule applies to.
    pub fn file_type_filter(&self) -> (r: FileTypeFilter)
        ensures
            r == FileTypeFilter::CodeOnly,
    {
        FileTypeFilter::CodeOnly
    }

    /// One line deletion per trivial module doc comment.
    pub fn check(&self, content: &str, _spans: Option<&[Span]>) -> (r: Vec<Match>)
        requires
            content.spec_bytes().len() < usize::MAX,
        ensures
            views(r@) == Self::spec_check(content@),
    {
        let t = pack_line(
            "rust-trivial-mod-doc",
            7500,
            "Module doc comment restates the module name. Add real documentation.",
        );
        let mut out: Vec<Match> = Vec::new();
        assert(views(out@) =~= Seq::<MatchView>::empty());
        push_trimmed_matches(
            &mut out,
            content,
            r"(?im)^[ \t]*//![ \t]*(This module (?:contains|provides|implements|defines|handles) .+\.|The [a-zA-Z0-9_]+ module\.)",
            &t,
        );
        assert(views(out@) =~= Self::spec_check(content@));
        out
    }

    /// What the rule looks for and what it does.
    /// What the rule looks for and what its fix does.
    pub open spec fn spec_explanation(&self) -> ExplanationView {
        ExplanationView {
            pattern_summary: "Inner doc comments (`//!`) that say \"This module contains/provides…\""@,
            fix_behavior: "DeleteLine"@,
            confidence: 7500,
            example_input: "//! This module contains the authentication logic."@,
            example_output: "(line deleted)"@,
        }
    }

    /// What the rule looks for and what its fix does.
    pub fn explain(&self) -> (r: RuleExplanation)
        ensures
            r@ == self.spec_explanation(),
    {
        RuleExplanation {
            pattern_summary: "Inner doc comments (`//!`) that say \"This module contains/provides…\"".to_owned(),
            fix_behavior: "DeleteLine".to_owned(),
            confidence: 7500,
            example_input: "//! This module contains the authentication logic.".to_owned(),
            example_output: "(line deleted)".to_owned(),
        }
    }
}

// ---------------------------------------------------------------------------
// Python pack
// ---------------------------------------------------------------------------

/// A docstring whose `Args:` section only holds generic descriptions.
pub open spec fn args_boilerplate_pattern() -> Seq<char> {
    r#"(?ms)"""[\s\S]*?Args:\s*\n(?:[ \t]+\w+(?:\s*:\s*(?:The|A|An)\s+(?:input|output|data|result|value|parameter|argument|return)[^.\n]*\.?)\s*\n)+[\s\S]*?""""#@
}

/// A docstring whose `Returns:` section only holds a generic description.
pub open spec fn returns_boilerplate_pattern() -> Seq<char> {
    r#"(?ms)"""[\s\S]*?Returns:\s*\n[ \t]+(?:The|A|An)\s+(?:output|result|data|value|processed\s+data|return\s+value)[^.\n]*\.?[\s\S]*?""""#@
}

/// The description of an `Args:` boilerplate match.
pub open spec fn args_description() -> Seq<char> {
    "Python docstring Args section contains only generic boilerplate with no real semantic information."@
}

/// The description of a `Returns:` boilerplate match.
pub open spec fn returns_description() -> Seq<char> {
    "Python docstring Returns section contains only generic boilerplate."@
}

/// The spans of the matches of `pattern` (none when it does not compile).
pub open spec fn found(pattern: Seq<char>, content: Seq<char>) -> Seq<(usize, usize)> {
    match regex_find_spans(pattern, content) {
        Some(v) => v,
        None => seq![],
    }
}

/// How far the shown head of a match in `[s, e)` may reach: at most 80
/// bytes in.
pub open spec fn head_limit(s: int, e: int) -> int {
    if e - s < 80 {
        e
    } else {
        s + 80
    }
}

/// The last character boundary at or before `h`, and not before `s`.
pub open spec fn back_to_boundary(b: Seq<u8>, s: int, h: int) -> int
    decreases h - s,
{
    if h <= s || boundary(b, h) {
        h
    } else {
        back_to_boundary(b, s, h - 1)
    }
}

/// Where the shown head of a match in `[s, e)` ends: the last character
/// boundary within its first 80 bytes.
pub open spec fn head_end(b: Seq<u8>, s: int, e: int) -> int {
    back_to_boundary(b, s, head_limit(s, e))
}

/// A flagged boilerplate docstring in `[s, e)`, shown by its first 80 bytes
/// and an ellipsis.
pub open spec fn boilerplate_view(b: Seq<u8>, s: int, e: int, description: Seq<char>) -> MatchView {
    MatchView {
        rule_id: "python-args-boilerplate"@,
        category: Category::PackSpecific,
        severity: Severity::Warn,
        confidence: 7500,
        start: s,
        end: e,
        line: line_col_at(b, s).0,
        col: line_col_at(b, s).1,
        original: text_of(b, s, head_end(b, s, e)) + "…"@,
        suggestion: Seq::empty(),
        kind: KindView::FlagOnly,
        description,
    }
}

/// One flag per `Args:` boilerplate docstring.
pub open spec fn args_views(b: Seq<u8>, spans: Seq<(usize, usize)>) -> Seq<MatchView> {
    Seq::new(
        spans.len(),
        |k: int| boilerplate_view(b, spans[k].0 as int, spans[k].1 as int, args_description()),
    )
}

/// Some match of the list covers the range `[s, e)`.
pub open spec fn covered(ms: Seq<MatchView>, s: int, e: int) -> bool {
    exists|k: int| 0 <= k < ms.len() && ms[k].start <= s && ms[k].end >= e
}

/// The flags after the first `n` `Returns:` spans: each adds a flag unless a
/// flag already in the list covers it.
pub open spec fn with_returns(b: Seq<u8>, base: Seq<MatchView>, spans: Seq<(usize, usize)>, n: int) -> Seq<
    MatchView,
>
    decreases n,
{
    if n <= 0 {
        base
    } else {
        let prev = with_returns(b, base, spans, n - 1);
        let s = spans[n - 1].0 as int;
        let e = spans[n - 1].1 as int;
        if covered(prev, s, e) {
            prev
        } else {
            prev.push(boilerplate_view(b, s, e, returns_description()))
        }
    }
}

/// Python docstrings whose `Args:` or `Returns:` sections are generic
/// boilerplate; flagged, never fixed.
pub struct PythonArgsBoilerplateRule;

impl PythonArgsBoilerplateRule {
    /// The flags: one per `Args:` boilerplate docstring, then one per
    /// `Returns:` boilerplate docstring that no earlier flag covers.
    pub open spec fn spec_check(content: Seq<char>) -> Seq<MatchView> {
        let b = encode_utf8(content);
        let rs = found(returns_boilerplate_pattern(), content);
        with_returns(b, args_views(b, found(args_boilerplate_pattern(), content)), rs, rs.len() as int)
    }

    /// The rule's identifier.
    pub fn id(&self) -> (r: &'static str)
        ensures
            r@ == "python-args-boilerplate"@,
    {
        "python-args-boilerplate"
    }

    /// The rule's category.
    pub fn category(&self) -> (r: Category)
        ensures
            r == Category::PackSpecific,
    {
        Category::PackSpecific
    }

    /// The file types the rule applies to.
    pub fn file_type_filter(&self) -> (r: FileTypeFilter)
        ensures
            r == FileTypeFilter::CodeOnly,
    {
        FileTypeFilter::CodeOnly
    }

    /// The flags.
    pub fn check(&self, content: &str, _spans: Option<&[Span]>) -> (r: Vec<Match>)
        requires
            content.spec_bytes().len() < usize::MAX,
        ensures
            views(r@) == Self::spec_check(content@),
    {
        let ghost b = content.spec_bytes();
        let a = found_spans(
            r#"(?ms)"""[\s\S]*?Args:\s*\n(?:[ \t]+\w+(?:\s*:\s*(?:The|A|An)\s+(?:input|output|data|result|value|parameter|argument|return)[^.\n]*\.?)\s*\n)+[\s\S]*?""""#,
            content,
        );
        let mut out: Vec<Match> = Vec::new();
        let mut i: usize = 0;
        while i < a.len()
            invariant
                b == content.spec_bytes(),
                b.len() < usize::MAX,
                a@ == found(args_boilerplate_pattern(), content@),
                spans_in_text(b, a@),
                i <= a@.len(),
                views(out@) == args_views(b, a@.take(i as int)),
            decreases a@.len() - i,
        {
            let (s, e) = a[i];
            assert(a@[i as int].0 <= a@[i as int].1);
            let m = boilerplate_match(
                content,
                s,
                e,
                "Python docstring Args section contains only generic boilerplate with no real semantic information.",
            );
            let ghost before = out@;
            out.push(m);
            assert(views(out@) =~= views(before).push(m@));
            assert(args_views(b, a@.take(i + 1)) =~= args_views(b, a@.take(i as int)).push(m@));
            i = i + 1;
        }
        assert(a@.take(a@.len() as int) == a@);
        let ghost base = views(out@);
        let rs = found_spans(
            r#"(?ms)"""[\s\S]*?Returns:\s*\n[ \t]+(?:The|A|An)\s+(?:output|result|data|value|processed\s+data|return\s+value)[^.\n]*\.?[\s\S]*?""""#,
            content,
        );
        let mut j: usize = 0;
        while j < rs.len()
            invariant
                b == content.spec_bytes(),
                b.len() < usize::MAX,
                base == args_views(b, found(args_boilerplate_pattern(), content@)),
                rs@ == found(returns_boilerplate_pattern(), content@),
                spans_in_text(b, rs@),
                j <= rs@.len(),
                views(out@) == with_returns(b, base, rs@, j as int),
            decreases rs@.len() - j,
        {
            let (s, e) = rs[j];
            assert(rs@[j as int].0 <= rs@[j as int].1);
            if !is_covered(&out, s, e) {
                let m = boilerplate_match(
                    content,
                    s,
                    e,
                    "Python docstring Returns section contains only generic boilerplate.",
                );
                let ghost before = out@;
                out.push(m);
                assert(views(out@) =~= views(before).push(m@));
            }
            j = j + 1;
        }
        out
    }

    /// What the rule looks for and what it does.
    /// What the rule looks for and what its fix does.
    pub open spec fn spec_explanation(&self) -> ExplanationView {
        ExplanationView {
            pattern_summary: "NumPy/Google-style Python docstrings where Args/Returns sections contain only generic descriptions like \"The input data\", \"The output result\""@,
            fix_behavior: "FlagOnly — highlighted in report and interactive mode, never auto-deleted"@,
            confidence: 7500,
            example_input: "Args:\n    data: The input data.\nReturns:\n    The output data."@,
            example_output: "(flagged for review)"@,
        }
    }

    /// What the rule looks for and what its fix does.
    pub fn explain(&self) -> (r: RuleExplanation)
        ensures
            r@ == self.spec_explanation(),
    {
        RuleExplanation {
            pattern_summary: "NumPy/Google-style Python docstrings where Args/Returns sections contain only generic descriptions like \"The input data\", \"The output result\"".to_owned(),
            fix_behavior: "FlagOnly — highlighted in report and interactive mode, never auto-deleted".to_owned(),
            confidence: 7500,
            example_input: "Args:\n    data: The input data.\nReturns:\n    The output data.".to_owned(),
            example_output: "(flagged for review)".to_owned(),
        }
    }
}

/// The spans of the matches of `pattern` in `content`.
fn found_spans(pattern: &str, content: &str) -> (r: Vec<(usize, usize)>)
    ensures
        r@ == found(pattern@, content@),
        spans_in_text(content.spec_bytes(), r@),
{
    match regex_find(pattern, content) {
        Some(v) => v,
        None => Vec::new(),
    }
}

/// Whether some match of the list covers `[s, e)`.
fn is_covered(ms: &Vec<Match>, s: usize, e: usize) -> (r: bool)
    ensures
        r == covered(views(ms@), s as int, e as int),
{
    let mut k: usize = 0;
    while k < ms.len()
        invariant
            k <= ms@.len(),
            forall|q: int|
                0 <= q < k ==> !(ms@[q].byte_range.start <= s && ms@[q].byte_range.end >= e),
        decreases ms@.len() - k,
    {
        if ms[k].byte_range.start <= s && ms[k].byte_range.end >= e {
            assert(views(ms@)[k as int] == ms@[k as int]@);
            return true;
        }
        k = k + 1;
    }
    assert forall|q: int| 0 <= q < views(ms@).len() implies !(views(ms@)[q].start <= s && views(
        ms@,
    )[q].end >= e) by {
        assert(views(ms@)[q] == ms@[q]@);
    }
    false
}

/// A boilerplate flag for `[s, e)`.
fn boilerplate_match(content: &str, s: usize, e: usize, description: &str) -> (m: Match)
    requires
        content.spec_bytes().len() < usize::MAX,
        s <= e <= content.spec_bytes().len(),
        boundary(content.spec_bytes(), s as int),
    ensures
        m@ == boilerplate_view(content.spec_bytes(), s as int, e as int, description@),
{
    let ghost b = content.spec_bytes();
    let mut h = if e - s < 80 {
        e
    } else {
        s + 80
    };
    while h > s && !at_boundary(content, h)
        invariant
            b == content.spec_bytes(),
            s <= h <= e,
            back_to_boundary(b, s as int, h as int) == head_end(b, s as int, e as int),
        decreases h - s,
    {
        h = h - 1;
    }
    assert(h as int == head_end(b, s as int, e as int));
    let (line, col) = line_col_from_offset(content, s);
    let mut original = String::new();
    push_str(&mut original, substring(content, s, h));
    push_str(&mut original, "…");
    proof {
        reveal_strlit("python-args-boilerplate");
    }
    Match {
        rule_id: "python-args-boilerplate".to_owned(),
        category: Category::PackSpecific,
        severity: Severity::Warn,
        confidence: 7500,
        byte_range: Range { start: s, end: e },
        line,
        col,
        original,
        suggestion: String::new(),
        kind: MatchKind::FlagOnly,
        description: description.to_owned(),
    }
}

/// A NumPy section header followed right away by another header or by the
/// end of the docstring; group 1 is the empty header's line.
pub open spec fn empty_section_pattern() -> Seq<char> {
    r#"(?m)^([ \t]*(?:Args|Returns|Raises|Yields|Notes|References|Examples|Attributes):\s*\n)(?:[ \t]*(?:Args|Returns|Raises|Yields|Notes|References|Examples|Attributes):|[ \t]*""")"#@
}

/// The capture groups of every match of the empty-section pattern.
pub open spec fn section_captures(content: Seq<char>) -> Seq<Seq<Option<(usize, usize)>>> {
    match regex_all_captures(empty_section_pattern(), content) {
        Some(v) => v,
        None => seq![],
    }
}

/// Where a capture group starts (0 when it took no part).
pub open spec fn group_start(g: Option<(usize, usize)>) -> int {
    match g {
        Some(r) => r.0 as int,
        None => 0,
    }
}

/// Where a capture group ends (0 when it took no part).
pub open spec fn group_end(g: Option<(usize, usize)>) -> int {
    match g {
        Some(r) => r.1 as int,
        None => 0,
    }
}

/// The template of an empty-section match.
pub open spec fn empty_section_template() -> TemplateView {
    pack_line_template(
        "python-empty-docstring-section"@,
        9000,
        "Empty NumPy docstring section header with no content. Remove it."@,
    )
}

/// Python docstring section headers with nothing below them.
pub struct PythonNumpyEmptySectionRule;

impl PythonNumpyEmptySectionRule {
    /// One line deletion per empty header: the header line (group 1 of each
    /// match), reported trimmed.
    pub open spec fn spec_check(content: Seq<char>) -> Seq<MatchView> {
        let c = section_captures(content);
        Seq::new(
            c.len(),
            |k: int|
                trimmed_view(
                    encode_utf8(content),
                    group_start(c[k][1]),
                    group_end(c[k][1]),
                    empty_section_template(),
                ),
        )
    }

    /// Every match has a group 1.
    pub open spec fn spec_total(content: Seq<char>) -> bool {
        let c = section_captures(content);
        forall|k: int| 0 <= k < c.len() ==> #[trigger] c[k].len() > 1 && c[k][1] is Some
    }

    /// The rule's identifier.
    pub fn id(&self) -> (r: &'static str)
        ensures
            r@ == "python-empty-docstring-section"@,
    {
        "python-empty-docstring-section"
    }

    /// The rule's category.
    pub fn category(&self) -> (r: Category)
        ensures
            r == Category::PackSpecific,
    {
        Category::PackSpecific
    }

    /// The file types the rule applies to.
    pub fn file_type_filter(&self) -> (r: FileTypeFilter)
        ensures
            r == FileTypeFilter::CodeOnly,
    {
        FileTypeFilter::CodeOnly
    }

    /// The line deletions, or `None` when some match lacks group 1.
    pub fn try_check(&self, content: &str, _spans: Option<&[Span]>) -> (r: Option<Vec<Match>>)
        requires
            content.spec_bytes().len() < usize::MAX,
        ensures
            r is Some <==> Self::spec_total(content@),
            r matches Some(v) ==> views(v@) == Self::spec_check(content@),
    {
        let ghost b = content.spec_bytes();
        let t = pack_line(
            "python-empty-docstring-section",
            9000,
            "Empty NumPy docstring section header with no content. Remove it.",
        );
        let caps = match regex_captures_all(
            r#"(?m)^([ \t]*(?:Args|Returns|Raises|Yields|Notes|References|Examples|Attributes):\s*\n)(?:[ \t]*(?:Args|Returns|Raises|Yields|Notes|References|Examples|Attributes):|[ \t]*""")"#,
            content,
        ) {
            Some(v) => v,
            None => Vec::new(),
        };
        let ghost c = section_captures(content@);
        assert(c =~= Seq::new(caps@.len(), |k: int| caps@[k]@));
        let mut out: Vec<Match> = Vec::new();
        let mut i: usize = 0;
        while i < caps.len()
            invariant
                b == content.spec_bytes(),
                b.len() < usize::MAX,
                t@ == empty_section_template(),
                c == section_captures(content@),
                c.len() == caps@.len(),
                forall|k: int| 0 <= k < caps@.len() ==> #[trigger] c[k] == caps@[k]@,
                forall|k: int| 0 <= k < caps@.len() ==> groups_in_text(b, #[trigger] caps@[k]@),
                i <= caps@.len(),
                forall|k: int| 0 <= k < i ==> #[trigger] c[k].len() > 1 && c[k][1] is Some,
                views(out@) == Self::spec_check(content@).take(i as int),
            decreases caps@.len() - i,
        {
            assert(c[i as int] == caps@[i as int]@);
            let g = &caps[i];
            if g.len() < 2 {
                return None;
            }
            match g[1] {
                None => {
                    return None;
                },
                Some((s, e)) => {
                    assert(groups_in_text(b, g@));
                    assert(g@[1] matches Some(r) ==> r.0 <= r.1);
                    let m = trimmed_match(content, s, e, &t);
                    let ghost before = out@;
                    out.push(m);
                    assert(views(out@) =~= views(before).push(m@));
                    assert(Self::spec_check(content@).take(i + 1) =~= Self::spec_check(
                        content@,
                    ).take(i as int).push(m@));
                },
            }
            i = i + 1;
        }
        assert(Self::spec_check(content@).take(caps@.len() as int) =~= Self::spec_check(content@));
        Some(out)
    }

    /// The line deletions; the caller makes sure every match has a group 1.
    pub fn check(&self, content: &str, spans: Option<&[Span]>) -> (r: Vec<Match>)
        requires
            content.spec_bytes().len() < usize::MAX,
            Self::spec_total(content@),
        ensures
            views(r@) == Self::spec_check(content@),
    {
        self.try_check(content, spans).unwrap()
    }

    /// What the rule looks for and what it does.
    /// What the rule looks for and what its fix does.
    pub open spec fn spec_explanation(&self) -> ExplanationView {
        ExplanationView {
            pattern_summary: "NumPy-style docstring section headers (Args:, Returns:, etc.) that have no content below them"@,
            fix_behavior: "DeleteLine"@,
            confidence: 9000,
            example_input: "Args:\nReturns:\n    int"@,
            example_output: "Returns:\n    int"@,
        }
    }

    /// What the rule looks for and what its fix does.
    pub fn explain(&self) -> (r: RuleExplanation)
        ensures
            r@ == self.spec_explanation(),
    {
        RuleExplanation {
            pattern_summary: "NumPy-style docstring section headers (Args:, Returns:, etc.) that have no content below them".to_owned(),
            fix_behavior: "DeleteLine".to_owned(),
            confidence: 9000,
            example_input: "Args:\nReturns:\n    int".to_owned(),
            example_output: "Returns:\n    int".to_owned(),
        }
    }
}

} // verus!
