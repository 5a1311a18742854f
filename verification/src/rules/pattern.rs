//! Rules that report every match of a regular expression: a template gives
//! the fields that do not depend on where the match is.

use vstd::prelude::*;
use vstd::string::*;
use vstd::utf8::*;
use core::ops::Range;
use crate::bindings::{regex_find, regex_find_spans};
use crate::text::{boundary, line_col_at, line_col_from_offset, substring, text_of};
use super::{views, Category, KindView, Match, MatchKind, MatchView, Severity};

verus! {

/// The fields of a reported match that do not depend on its position.
pub struct Template {
    pub rule_id: String,
    pub category: Category,
    pub severity: Severity,
    pub confidence: u32,
    pub kind: MatchKind,
    pub suggestion: String,
    pub description: String,
}

/// The mathematical value of a [`Template`].
pub struct TemplateView {
    pub rule_id: Seq<char>,
    pub category: Category,
    pub severity: Severity,
    pub confidence: u32,
    pub kind: KindView,
    pub suggestion: Seq<char>,
    pub description: Seq<char>,
}

impl View for Template {
    type V = TemplateView;

    open spec fn view(&self) -> TemplateView {
        TemplateView {
            rule_id: self.rule_id@,
            category: self.category,
            severity: self.severity,
            confidence: self.confidence,
            kind: self.kind@,
            suggestion: self.suggestion@,
            description: self.description@,
        }
    }
}

/// A template from its fields.
pub fn template(
    rule_id: &str,
    category: Category,
    severity: Severity,
    confidence: u32,
    kind: MatchKind,
    suggestion: &str,
    description: &str,
) -> (t: Template)
    ensures
        t@ == (TemplateView {
            rule_id: rule_id@,
            category,
            severity,
            confidence,
            kind: kind@,
            suggestion: suggestion@,
            description: description@,
        }),
{
    Template {
        rule_id: String::from_str(rule_id),
        category,
        severity,
        confidence,
        kind,
        suggestion: String::from_str(suggestion),
        description: String::from_str(description),
    }
}

/// A template that deletes the matched text.
pub fn delete_template(
    rule_id: &str,
    category: Category,
    confidence: u32,
    description: &str,
) -> (t: Template)
    ensures
        t@ == (TemplateView {
            rule_id: rule_id@,
            category,
            severity: Severity::Warn,
            confidence,
            kind: KindView::Replace(Seq::empty()),
            suggestion: Seq::empty(),
            description: description@,
        }),
{
    proof {
        reveal_strlit("");
        assert(""@ =~= Seq::<char>::empty());
    }
    template(
        rule_id,
        category,
        Severity::Warn,
        confidence,
        MatchKind::Replace(String::new()),
        "",
        description,
    )
}

/// The match reported for the text in `[s, e)`.
pub open spec fn span_view(b: Seq<u8>, s: int, e: int, t: TemplateView) -> MatchView {
    MatchView {
        rule_id: t.rule_id,
        category: t.category,
        severity: t.severity,
        confidence: t.confidence,
        start: s,
        end: e,
        line: line_col_at(b, s).0,
        col: line_col_at(b, s).1,
        original: text_of(b, s, e),
        suggestion: t.suggestion,
        kind: t.kind,
        description: t.description,
    }
}

/// One match per match of `pattern` in `content`, in order (none when the
/// pattern does not compile).
pub open spec fn pattern_views(content: Seq<char>, pattern: Seq<char>, t: TemplateView) -> Seq<
    MatchView,
> {
    match regex_find_spans(pattern, content) {
        Some(v) => Seq::new(
            v.len(),
            |k: int| span_view(encode_utf8(content), v[k].0 as int, v[k].1 as int, t),
        ),
        None => seq![],
    }
}

/// The match reported for the text of `content` in `[s, e)`.
pub fn span_match(content: &str, s: usize, e: usize, t: &Template) -> (m: Match)
    requires
        content.spec_bytes().len() < usize::MAX,
        s <= e,
        boundary(content.spec_bytes(), s as int),
        boundary(content.spec_bytes(), e as int),
    ensures
        m@ == span_view(content.spec_bytes(), s as int, e as int, t@),
{
    let (line, col) = line_col_from_offset(content, s);
    let original = substring(content, s, e);
    Match {
        rule_id: t.rule_id.clone(),
        category: t.category,
        severity: t.severity,
        confidence: t.confidence,
        byte_range: Range { start: s, end: e },
        line,
        col,
        original: original.to_owned(),
        suggestion: t.suggestion.clone(),
        kind: t.kind.duplicate(),
        description: t.description.clone(),
    }
}

/// Appends one match per match of `pattern` in `content`.
pub fn push_pattern_matches(out: &mut Vec<Match>, content: &str, pattern: &str, t: &Template)
    requires
        content.spec_bytes().len() < usize::MAX,
    ensures
        views(final(out)@) == views(old(out)@) + pattern_views(content@, pattern@, t@),
{
    let ghost start = views(out@);
    if let Some(v) = regex_find(pattern, content) {
        let mut i: usize = 0;
        while i < v.len()
            invariant
                i <= v@.len(),
                content.spec_bytes().len() < usize::MAX,
                crate::bindings::spans_in_text(content.spec_bytes(), v@),
                regex_find_spans(pattern@, content@) == Some(v@),
                views(out@) == start + pattern_views(content@, pattern@, t@).take(i as int),
            decreases v@.len() - i,
        {
            let (s, e) = v[i];
            assert(v@[i as int].0 <= v@[i as int].1);
            let m = span_match(content, s, e, t);
            let ghost before = out@;
            let ghost pv = pattern_views(content@, pattern@, t@);
            out.push(m);
            assert(views(out@) =~= views(before).push(m@));
            assert(pv.take(i + 1) =~= pv.take(i as int).push(pv[i as int]));
            assert(views(out@) =~= start + pv.take(i + 1));
            i = i + 1;
        }
        assert(pattern_views(content@, pattern@, t@).take(v@.len() as int) == pattern_views(
            content@,
            pattern@,
            t@,
        ));
    } else {
        assert(start + Seq::<MatchView>::empty() == start);
    }
}

} // verus!
