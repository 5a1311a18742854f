//! Prose rules: filler openers, sycophantic closers, hedges, transitional
//! padding and hollow intensifiers.

use vstd::prelude::*;
use vstd::string::*;
use vstd::utf8::*;
use crate::bindings::{
    is_uppercase, lowercase_text, regex_find, regex_find_spans, spans_in_text, to_lowercase,
    to_uppercase, uppercase_char, uppercase_text,
};
use crate::text::{chars_of, contains_seq, push_str, starts_with, str_eq, substring, text_of};
use super::pattern::{
    delete_template, pattern_views, push_pattern_matches, span_match, span_view, template,
    Template, TemplateView,
};
use super::{
    views, Category, ExplanationView, FileTypeFilter, KindView, Match, MatchKind, MatchView, RuleExplanation,
    Severity, Span,
};

verus! {

/// The template of a prose rule that deletes what it matches.
pub open spec fn prose_delete(rule_id: Seq<char>, confidence: u32, description: Seq<char>) -> TemplateView {
    TemplateView {
        rule_id,
        category: Category::Prose,
        severity: Severity::Warn,
        confidence,
        kind: KindView::Replace(Seq::empty()),
        suggestion: Seq::empty(),
        description,
    }
}

/// Filler openers at the start of a line ("Certainly!", "Of course").
pub open spec fn filler_pattern() -> Seq<char> {
    r"(?im)^[ \t]*(?:Certainly|Absolutely|Of course|Great question|Sure|Definitely)!?\s*"@
}

/// Offers of help at the start of a line ("I'd be happy to").
pub open spec fn filler_pattern_2() -> Seq<char> {
    r"(?im)^[ \t]*(?:I'?d be happy to|Happy to help)[.,!]?\s*"@
}

/// Filler openers: deleted.
pub struct FillerOpenersRule;

impl FillerOpenersRule {
    /// A filler-opener rule.
    pub fn new() -> Self {
        FillerOpenersRule
    }

    /// The rule's template.
    pub open spec fn spec_template() -> TemplateView {
        prose_delete("filler-openers"@, 9500, "Filler opener. State the point directly."@)
    }

    /// Every match of the first pattern, then every match of the second.
    pub open spec fn spec_check(content: Seq<char>) -> Seq<MatchView> {
        pattern_views(content, filler_pattern(), Self::spec_template()) + pattern_views(
            content,
            filler_pattern_2(),
            Self::spec_template(),
        )
    }

    /// The rule's identifier.
    pub fn id(&self) -> (r: &'static str)
        ensures
            r@ == "filler-openers"@,
    {
        "filler-openers"
    }

    /// The rule's category.
    pub fn category(&self) -> (r: Category)
        ensures
            r == Category::Prose,
    {
        Category::Prose
    }

    /// The file types the rule applies to.
    pub fn file_type_filter(&self) -> (r: FileTypeFilter)
        ensures
            r == FileTypeFilter::All,
    {
        FileTypeFilter::All
    }

    /// One deletion per filler opener.
    pub fn check(&self, content: &str, _comment_spans: Option<&[Span]>) -> (r: Vec<Match>)
        requires
            content.spec_bytes().len() < usize::MAX,
        ensures
            views(r@) == Self::spec_check(content@),
    {
        let t = delete_template(
            "filler-openers",
            Category::Prose,
            9500,
            "Filler opener. State the point directly.",
        );
        let mut out: Vec<Match> = Vec::new();
        assert(views(out@) == Seq::<MatchView>::empty());
        push_pattern_matches(
            &mut out,
            content,
            r"(?im)^[ \t]*(?:Certainly|Absolutely|Of course|Great question|Sure|Definitely)!?\s*",
            &t,
        );
        push_pattern_matches(
            &mut out,
            content,
            r"(?im)^[ \t]*(?:I'?d be happy to|Happy to help)[.,!]?\s*",
            &t,
        );
        out
    }
    /// What the rule looks for and what it does.
    /// What the rule looks for and what its fix does.
    pub open spec fn spec_explanation(&self) -> ExplanationView {
        ExplanationView {
            pattern_summary: "Phrases at sentence start: \"Certainly!\", \"Absolutely!\", \"Of course!\", \"I'd be happy to\""@,
            fix_behavior: "Replace(delete) — removes the filler phrase"@,
            confidence: 9500,
            example_input: "Certainly! Here is the solution."@,
            example_output: "Here is the solution."@,
        }
    }

    /// What the rule looks for and what its fix does.
    pub fn explain(&self) -> (r: RuleExplanation)
        ensures
            r@ == self.spec_explanation(),
    {
        RuleExplanation {
            pattern_summary: "Phrases at sentence start: \"Certainly!\", \"Absolutely!\", \"Of course!\", \"I'd be happy to\"".to_owned(),
            fix_behavior: "Replace(delete) — removes the filler phrase".to_owned(),
            confidence: 9500,
            example_input: "Certainly! Here is the solution.".to_owned(),
            example_output: "Here is the solution.".to_owned(),
        }
    }
}

/// The filler-opener rule's pattern: case-insensitive, at the start of a
/// line after spaces or tabs, one of the openers Certainly, Absolutely, Of
/// course, Great question, Sure and Definitely, each a whole alternative of
/// the opener group, then an optional `!` and white space; and the rule
/// deletes every match of it.
pub proof fn lemma_filler_openers_listed(content: Seq<char>)
    ensures
        starts_with(filler_pattern(), r"(?im)^[ \t]*(?:Certainly|"@),
        contains_seq(filler_pattern(), "|Absolutely|"@),
        contains_seq(filler_pattern(), "|Of course|"@),
        contains_seq(filler_pattern(), "|Great question|"@),
        contains_seq(filler_pattern(), "|Sure|"@),
        filler_pattern().skip(65) == r"|Definitely)!?\s*"@,
        forall|k: int|
            0 <= k < FillerOpenersRule::spec_check(content).len() ==> (#[trigger] FillerOpenersRule::spec_check(
                content,
            )[k]).kind == KindView::Replace(Seq::empty()),
{
    let p = filler_pattern();
    reveal_strlit(r"(?im)^[ \t]*(?:Certainly|Absolutely|Of course|Great question|Sure|Definitely)!?\s*");
    reveal_strlit(r"(?im)^[ \t]*(?:Certainly|");
    reveal_strlit("|Absolutely|");
    reveal_strlit("|Of course|");
    reveal_strlit("|Great question|");
    reveal_strlit("|Sure|");
    reveal_strlit(r"|Definitely)!?\s*");
    assert(p.take(25) =~= r"(?im)^[ \t]*(?:Certainly|"@);
    assert(starts_with(p.skip(24), "|Absolutely|"@)) by {
        assert(p.skip(24).take(12) =~= "|Absolutely|"@);
    }
    assert(starts_with(p.skip(35), "|Of course|"@)) by {
        assert(p.skip(35).take(11) =~= "|Of course|"@);
    }
    assert(starts_with(p.skip(45), "|Great question|"@)) by {
        assert(p.skip(45).take(16) =~= "|Great question|"@);
    }
    assert(starts_with(p.skip(60), "|Sure|"@)) by {
        assert(p.skip(60).take(6) =~= "|Sure|"@);
    }
    assert(p.skip(65) =~= r"|Definitely)!?\s*"@);
    let t = FillerOpenersRule::spec_template();
    let v1 = pattern_views(content, p, t);
    let v2 = pattern_views(content, filler_pattern_2(), t);
    let v = FillerOpenersRule::spec_check(content);
    assert(v == v1 + v2);
    assert forall|k: int| 0 <= k < v.len() implies (#[trigger] v[k]).kind == KindView::Replace(Seq::empty()) by {
        if k < v1.len() {
            assert(v[k] == v1[k]);
            if let Some(f) = regex_find_spans(p, content) {
                assert(v1[k] == span_view(encode_utf8(content), f[k].0 as int, f[k].1 as int, t));
            }
        } else {
            assert(v[k] == v2[k - v1.len()]);
            if let Some(f) = regex_find_spans(filler_pattern_2(), content) {
                assert(v2[k - v1.len()] == span_view(
                    encode_utf8(content),
                    f[k - v1.len()].0 as int,
                    f[k - v1.len()].1 as int,
                    t,
                ));
            }
        }
    }
}

/// The pattern of the sycophantic-closers rule.
pub open spec fn sycophantic_pattern() -> Seq<char> {
    r"(?im)\b(?:I hope this helps|Feel free to ask|Let me know if you have questions|Don't hesitate to reach out|Hope that clarifies things)[.,!]?\s*"@
}

/// Sycophantic closers ("I hope this helps", "Feel free to ask"): deleted.
pub struct SycophanticClosersRule;

impl SycophanticClosersRule {
    /// A new rule.
    pub fn new() -> Self {
        SycophanticClosersRule
    }

    /// The rule's template.
    pub open spec fn spec_template() -> TemplateView {
        prose_delete("sycophantic-closers"@, 9000, "Sycophantic closer. Delete the phrase."@)
    }

    /// Every match of the pattern.
    pub open spec fn spec_check(content: Seq<char>) -> Seq<MatchView> {
        pattern_views(content, sycophantic_pattern(), Self::spec_template())
    }

    /// The rule's identifier.
    pub fn id(&self) -> (r: &'static str)
        ensures
            r@ == "sycophantic-closers"@,
    {
        "sycophantic-closers"
    }

    /// The rule's category.
    pub fn category(&self) -> (r: Category)
        ensures
            r == Category::Prose,
    {
        Category::Prose
    }

    /// The file types the rule applies to.
    pub fn file_type_filter(&self) -> (r: FileTypeFilter)
        ensures
            r == FileTypeFilter::All,
    {
        FileTypeFilter::All
    }

    /// One deletion per match of the pattern.
    pub fn check(&self, content: &str, _comment_spans: Option<&[Span]>) -> (r: Vec<Match>)
        requires
            content.spec_bytes().len() < usize::MAX,
        ensures
            views(r@) == Self::spec_check(content@),
    {
        let t = delete_template("sycophantic-closers", Category::Prose, 9000, "Sycophantic closer. Delete the phrase.");
        let mut out: Vec<Match> = Vec::new();
        assert(views(out@) == Seq::<MatchView>::empty());
        push_pattern_matches(
            &mut out,
            content,
            r"(?im)\b(?:I hope this helps|Feel free to ask|Let me know if you have questions|Don't hesitate to reach out|Hope that clarifies things)[.,!]?\s*",
            &t,
        );
        assert(views(out@) =~= Self::spec_check(content@));
        out
    }
}

/// The pattern of the hedges rule.
pub open spec fn hedge_pattern() -> Seq<char> {
    r"(?im)\b(?:it is worth noting that|it is important to remember that|it is important to note that|keep in mind that|note that|please note that|it should be noted that)\s*"@
}

/// Hedges ("it is worth noting that", "note that"): deleted.
pub struct HedgesRule;

impl HedgesRule {
    /// A new rule.
    pub fn new() -> Self {
        HedgesRule
    }

    /// The rule's template.
    pub open spec fn spec_template() -> TemplateView {
        prose_delete("hedges"@, 8500, "Hedge phrase. Delete it."@)
    }

    /// Every match of the pattern.
    pub open spec fn spec_check(content: Seq<char>) -> Seq<MatchView> {
        pattern_views(content, hedge_pattern(), Self::spec_template())
    }

    /// The rule's identifier.
    pub fn id(&self) -> (r: &'static str)
        ensures
            r@ == "hedges"@,
    {
        "hedges"
    }

    /// The rule's category.
    pub fn category(&self) -> (r: Category)
        ensures
            r == Category::Prose,
    {
        Category::Prose
    }

    /// The file types the rule applies to.
    pub fn file_type_filter(&self) -> (r: FileTypeFilter)
        ensures
            r == FileTypeFilter::All,
    {
        FileTypeFilter::All
    }

    /// One deletion per match of the pattern.
    pub fn check(&self, content: &str, _comment_spans: Option<&[Span]>) -> (r: Vec<Match>)
        requires
            content.spec_bytes().len() < usize::MAX,
        ensures
            views(r@) == Self::spec_check(content@),
    {
        let t = delete_template("hedges", Category::Prose, 8500, "Hedge phrase. Delete it.");
        let mut out: Vec<Match> = Vec::new();
        assert(views(out@) == Seq::<MatchView>::empty());
        push_pattern_matches(
            &mut out,
            content,
            r"(?im)\b(?:it is worth noting that|it is important to remember that|it is important to note that|keep in mind that|note that|please note that|it should be noted that)\s*",
            &t,
        );
        assert(views(out@) =~= Self::spec_check(content@));
        out
    }
}

/// The pattern of the transition-padding rule.
pub open spec fn transition_pattern() -> Seq<char> {
    r"(?im)^[ \t]*(?:In conclusion|To summarize|To recap|At the end of the day|In summary|All in all|Ultimately)[,\s]+"@
}

/// Transitional padding at the start of a line ("In conclusion,"): deleted.
pub struct TransitionPaddingRule;

impl TransitionPaddingRule {
    /// A new rule.
    pub fn new() -> Self {
        TransitionPaddingRule
    }

    /// The rule's template.
    pub open spec fn spec_template() -> TemplateView {
        prose_delete("transition-padding"@, 8000, "Transitional padding. Delete the phrase."@)
    }

    /// Every match of the pattern.
    pub open spec fn spec_check(content: Seq<char>) -> Seq<MatchView> {
        pattern_views(content, transition_pattern(), Self::spec_template())
    }

    /// The rule's identifier.
    pub fn id(&self) -> (r: &'static str)
        ensures
            r@ == "transition-padding"@,
    {
        "transition-padding"
    }

    /// The rule's category.
    pub fn category(&self) -> (r: Category)
        ensures
            r == Category::Prose,
    {
        Category::Prose
    }

    /// The file types the rule applies to.
    pub fn file_type_filter(&self) -> (r: FileTypeFilter)
        ensures
            r == FileTypeFilter::All,
    {
        FileTypeFilter::All
    }

    /// One deletion per match of the pattern.
    pub fn check(&self, content: &str, _comment_spans: Option<&[Span]>) -> (r: Vec<Match>)
        requires
            content.spec_bytes().len() < usize::MAX,
        ensures
            views(r@) == Self::spec_check(content@),
    {
        let t = delete_template("transition-padding", Category::Prose, 8000, "Transitional padding. Delete the phrase.");
        let mut out: Vec<Match> = Vec::new();
        assert(views(out@) == Seq::<MatchView>::empty());
        push_pattern_matches(
            &mut out,
            content,
            r"(?im)^[ \t]*(?:In conclusion|To summarize|To recap|At the end of the day|In summary|All in all|Ultimately)[,\s]+",
            &t,
        );
        assert(views(out@) =~= Self::spec_check(content@));
        out
    }
}


/// Hollow intensifiers and corporate filler words, as whole words.
pub open spec fn hollow_pattern() -> Seq<char> {
    r"(?i)\b(utilize|facilitate|leverage|implement|commence|endeavor|terminate|obtain|regarding|additional|individuals|methodology|seamlessly|robust|straightforward|scalable|cutting-edge|state-of-the-art|comprehensive|streamline|synergy|paradigm|holistic|proactive)\b"@
}

/// The plain word proposed for a filler word (given in lowercase), if any.
pub open spec fn spec_synonym(w: Seq<char>) -> Option<Seq<char>> {
    if false {
        None
    } else if w == "utilize"@ {
        Some("use"@)
    } else if w == "facilitate"@ {
        Some("help"@)
    } else if w == "leverage"@ {
        Some("use"@)
    } else if w == "implement"@ {
        Some("build"@)
    } else if w == "commence"@ {
        Some("start"@)
    } else if w == "endeavor"@ {
        Some("try"@)
    } else if w == "terminate"@ {
        Some("end"@)
    } else if w == "obtain"@ {
        Some("get"@)
    } else if w == "regarding"@ {
        Some("about"@)
    } else if w == "additional"@ {
        Some("more"@)
    } else if w == "individuals"@ {
        Some("people"@)
    } else if w == "methodology"@ {
        Some("method"@)
    } else {
        None
    }
}

/// The plain word proposed for a filler word (given in lowercase), if any.
pub fn synonym(w: &str) -> (r: Option<&'static str>)
    ensures
        match r {
            Some(s) => spec_synonym(w@) == Some(s@),
            None => spec_synonym(w@) is None,
        },
{
    if false {
        None
    } else if str_eq(w, "utilize") {
        Some("use")
    } else if str_eq(w, "facilitate") {
        Some("help")
    } else if str_eq(w, "leverage") {
        Some("use")
    } else if str_eq(w, "implement") {
        Some("build")
    } else if str_eq(w, "commence") {
        Some("start")
    } else if str_eq(w, "endeavor") {
        Some("try")
    } else if str_eq(w, "terminate") {
        Some("end")
    } else if str_eq(w, "obtain") {
        Some("get")
    } else if str_eq(w, "regarding") {
        Some("about")
    } else if str_eq(w, "additional") {
        Some("more")
    } else if str_eq(w, "individuals") {
        Some("people")
    } else if str_eq(w, "methodology") {
        Some("method")
    } else {
        None
    }
}

/// Every character of the word is uppercase.
pub open spec fn all_uppercase(w: Seq<char>) -> bool {
    forall|k: int| 0 <= k < w.len() ==> uppercase_char(#[trigger] w[k])
}

/// The synonym written in the case of the word it replaces: all capitals
/// for an all-capital word, a capital first letter for a capitalized word.
pub open spec fn spec_cased(word: Seq<char>, syn: Seq<char>) -> Seq<char> {
    if all_uppercase(word) {
        uppercase_text(syn)
    } else if word.len() > 0 && uppercase_char(word[0]) {
        if syn.len() == 0 {
            syn
        } else {
            uppercase_text(syn.take(1)) + syn.skip(1)
        }
    } else {
        syn
    }
}

/// The match reported for the filler word in `[s, e)`: a replacement by its
/// synonym, or a flag when it has none.
pub open spec fn hollow_view(b: Seq<u8>, s: int, e: int) -> MatchView {
    let word = text_of(b, s, e);
    match spec_synonym(lowercase_text(word)) {
        Some(syn) => MatchView {
            rule_id: "hollow-intensifiers"@,
            category: Category::Prose,
            severity: Severity::Warn,
            confidence: 7000,
            start: s,
            end: e,
            line: crate::text::line_col_at(b, s).0,
            col: crate::text::line_col_at(b, s).1,
            original: word,
            suggestion: spec_cased(word, syn),
            kind: KindView::Replace(spec_cased(word, syn)),
            description: "Hollow intensifier. Use '"@ + syn + "' instead."@,
        },
        None => MatchView {
            rule_id: "hollow-intensifiers"@,
            category: Category::Prose,
            severity: Severity::Warn,
            confidence: 7000,
            start: s,
            end: e,
            line: crate::text::line_col_at(b, s).0,
            col: crate::text::line_col_at(b, s).1,
            original: word,
            suggestion: Seq::empty(),
            kind: KindView::FlagOnly,
            description: "Hollow intensifier. Rephrase to be more direct."@,
        },
    }
}

/// Whether every character of the word is uppercase.
fn is_all_uppercase(word: &str) -> (r: bool)
    ensures
        r == all_uppercase(word@),
{
    let cs = chars_of(word);
    let mut i: usize = 0;
    while i < cs.len()
        invariant
            cs@ == word@,
            i <= cs@.len(),
            forall|k: int| 0 <= k < i ==> uppercase_char(#[trigger] cs@[k]),
        decreases cs@.len() - i,
    {
        if !is_uppercase(cs[i]) {
            return false;
        }
        i = i + 1;
    }
    true
}

/// The synonym in the case of the word it replaces.
fn cased(word: &str, syn: &str) -> (r: String)
    ensures
        r@ == spec_cased(word@, syn@),
{
    if is_all_uppercase(word) {
        return to_uppercase(syn);
    }
    let wc = chars_of(word);
    if wc.len() > 0 && is_uppercase(wc[0]) {
        let sb = syn.as_bytes();
        if sb.len() == 0 {
            proof {
                if syn@.len() > 0 {
                    crate::text::lemma_char_offset(syn@, 0);
                }
            }
            return String::from_str(syn);
        }
        proof {
            encode_utf8_valid_utf8(syn@);
            if syn@.len() == 0 {
                assert(encode_utf8(syn@) == Seq::<u8>::empty());
            }
            crate::text::lemma_char_offset(syn@, 0);
            assert(syn@.take(0) == Seq::<char>::empty());
            assert(encode_utf8(Seq::<char>::empty()) == Seq::<u8>::empty());
        }
        let (_cp, w) = crate::text::decode_at(sb, 0);
        let first = substring(syn, 0, w);
        let rest = substring(syn, w, sb.len());
        proof {
            let t1 = syn@.take(1);
            let t2 = syn@.skip(1);
            assert(t1 + t2 == syn@);
            crate::text::lemma_encode_concat(t1, t2);
            encode_utf8_decode_utf8(t1);
            encode_utf8_decode_utf8(t2);
            assert(encode_utf8(syn@).subrange(0, w as int) == encode_utf8(t1));
            assert(encode_utf8(syn@).subrange(w as int, sb@.len() as int) == encode_utf8(t2));
        }
        let mut out = to_uppercase(first);
        push_str(&mut out, rest);
        return out;
    }
    String::from_str(syn)
}

/// Hollow intensifiers: filler words with a plain synonym are replaced by
/// it (in the same case); the others are flagged.
pub struct HollowIntensifiersRule;

impl HollowIntensifiersRule {
    /// One match per filler word, in order.
    pub open spec fn spec_check(content: Seq<char>) -> Seq<MatchView> {
        match regex_find_spans(hollow_pattern(), content) {
            Some(v) => Seq::new(
                v.len(),
                |k: int| hollow_view(encode_utf8(content), v[k].0 as int, v[k].1 as int),
            ),
            None => seq![],
        }
    }

    /// The rule's identifier.
    pub fn id(&self) -> (r: &'static str)
        ensures
            r@ == "hollow-intensifiers"@,
    {
        "hollow-intensifiers"
    }

    /// The rule's category.
    pub fn category(&self) -> (r: Category)
        ensures
            r == Category::Prose,
    {
        Category::Prose
    }

    /// The file types the rule applies to.
    pub fn file_type_filter(&self) -> (r: FileTypeFilter)
        ensures
            r == FileTypeFilter::All,
    {
        FileTypeFilter::All
    }

    /// One replacement or flag per filler word.
    pub fn check(&self, content: &str, _comment_spans: Option<&[Span]>) -> (r: Vec<Match>)
        requires
            content.spec_bytes().len() < usize::MAX,
        ensures
            views(r@) == Self::spec_check(content@),
    {
        let mut out: Vec<Match> = Vec::new();
        let ghost b = content.spec_bytes();
        if let Some(v) = regex_find(
            r"(?i)\b(utilize|facilitate|leverage|implement|commence|endeavor|terminate|obtain|regarding|additional|individuals|methodology|seamlessly|robust|straightforward|scalable|cutting-edge|state-of-the-art|comprehensive|streamline|synergy|paradigm|holistic|proactive)\b",
            content,
        ) {
            let mut i: usize = 0;
            while i < v.len()
                invariant
                    i <= v@.len(),
                    b == content.spec_bytes(),
                    b.len() < usize::MAX,
                    spans_in_text(b, v@),
                    regex_find_spans(hollow_pattern(), content@) == Some(v@),
                    views(out@) == Self::spec_check(content@).take(i as int),
                decreases v@.len() - i,
            {
                let (s, e) = v[i];
                assert(v@[i as int].0 <= v@[i as int].1);
                let word = substring(content, s, e);
                let lower = to_lowercase(word);
                let desc_template;
                let syn_opt = synonym(lower.as_str());
                match syn_opt {
                    Some(syn) => {
                        let rep = cased(word, syn);
                        let mut desc = String::from_str("Hollow intensifier. Use '");
                        desc.append(syn);
                        desc.append("' instead.");
                        desc_template = template(
                            "hollow-intensifiers",
                            Category::Prose,
                            Severity::Warn,
                            7000,
                            MatchKind::Replace(rep.clone()),
                            rep.as_str(),
                            desc.as_str(),
                        );
                    },
                    None => {
                        proof {
                            reveal_strlit("");
                            assert(""@ =~= Seq::<char>::empty());
                        }
                        desc_template = template(
                            "hollow-intensifiers",
                            Category::Prose,
                            Severity::Warn,
                            7000,
                            MatchKind::FlagOnly,
                            "",
                            "Hollow intensifier. Rephrase to be more direct.",
                        );
                    },
                }
                let m = span_match(content, s, e, &desc_template);
                let ghost before = out@;
                out.push(m);
                let ghost sc = Self::spec_check(content@);
                assert(m@ == sc[i as int]);
                assert(views(out@) =~= views(before).push(m@));
                assert(sc.take(i + 1) =~= sc.take(i as int).push(sc[i as int]));
                i = i + 1;
            }
            assert(Self::spec_check(content@).take(v@.len() as int) =~= Self::spec_check(content@));
        } else {
            assert(views(out@) =~= Self::spec_check(content@));
        }
        out
    }
}


/// The pattern of the offers of help at the start of a line (I'd, or Id, be happy to; Happy to help), case-insensitive: each phrase is a whole alternative of the
/// group.
pub proof fn lemma_filler_pattern_2_listed()
    ensures
        starts_with(filler_pattern_2(), r"(?im)^[ \t]*(?:I'?d be happy to|"@),
        filler_pattern_2().skip(31) == r"|Happy to help)[.,!]?\s*"@,
{
    let p = filler_pattern_2();
    reveal_strlit(r"(?im)^[ \t]*(?:I'?d be happy to|Happy to help)[.,!]?\s*");
    reveal_strlit(r"(?im)^[ \t]*(?:I'?d be happy to|");
    reveal_strlit(r"|Happy to help)[.,!]?\s*");
    assert(p.take(32) =~= r"(?im)^[ \t]*(?:I'?d be happy to|"@);
    assert(p.skip(31) =~= r"|Happy to help)[.,!]?\s*"@);
}

/// The pattern of the sycophantic closers (I hope this helps, Feel free to ask, Let me know if you have questions, Don't hesitate to reach out, Hope that clarifies things), case-insensitive: each phrase is a whole alternative of the
/// group.
pub proof fn lemma_sycophantic_pattern_listed()
    ensures
        starts_with(sycophantic_pattern(), r"(?im)\b(?:I hope this helps|"@),
        contains_seq(sycophantic_pattern(), r"|Feel free to ask|"@),
        contains_seq(sycophantic_pattern(), r"|Let me know if you have questions|"@),
        contains_seq(sycophantic_pattern(), r"|Don't hesitate to reach out|"@),
        sycophantic_pattern().skip(106) == r"|Hope that clarifies things)[.,!]?\s*"@,
{
    let p = sycophantic_pattern();
    reveal_strlit(r"(?im)\b(?:I hope this helps|Feel free to ask|Let me know if you have questions|Don't hesitate to reach out|Hope that clarifies things)[.,!]?\s*");
    reveal_strlit(r"(?im)\b(?:I hope this helps|");
    reveal_strlit(r"|Feel free to ask|");
    reveal_strlit(r"|Let me know if you have questions|");
    reveal_strlit(r"|Don't hesitate to reach out|");
    reveal_strlit(r"|Hope that clarifies things)[.,!]?\s*");
    assert(p.take(28) =~= r"(?im)\b(?:I hope this helps|"@);
    assert(starts_with(p.skip(27), r"|Feel free to ask|"@)) by {
        assert(p.skip(27).take(18) =~= r"|Feel free to ask|"@);
    }
    assert(starts_with(p.skip(44), r"|Let me know if you have questions|"@)) by {
        assert(p.skip(44).take(35) =~= r"|Let me know if you have questions|"@);
    }
    assert(starts_with(p.skip(78), r"|Don't hesitate to reach out|"@)) by {
        assert(p.skip(78).take(29) =~= r"|Don't hesitate to reach out|"@);
    }
    assert(p.skip(106) =~= r"|Hope that clarifies things)[.,!]?\s*"@);
}

/// The pattern of the hedges (it is worth noting that, it is important to remember that, it is important to note that, keep in mind that, note that, please note that, it should be noted that), case-insensitive: each phrase is a whole alternative of the
/// group.
pub proof fn lemma_hedge_pattern_listed()
    ensures
        starts_with(hedge_pattern(), r"(?im)\b(?:it is worth noting that|"@),
        contains_seq(hedge_pattern(), r"|it is important to remember that|"@),
        contains_seq(hedge_pattern(), r"|it is important to note that|"@),
        contains_seq(hedge_pattern(), r"|keep in mind that|"@),
        contains_seq(hedge_pattern(), r"|note that|"@),
        contains_seq(hedge_pattern(), r"|please note that|"@),
        hedge_pattern().skip(140) == r"|it should be noted that)\s*"@,
{
    let p = hedge_pattern();
    reveal_strlit(r"(?im)\b(?:it is worth noting that|it is important to remember that|it is important to note that|keep in mind that|note that|please note that|it should be noted that)\s*");
    reveal_strlit(r"(?im)\b(?:it is worth noting that|");
    reveal_strlit(r"|it is important to remember that|");
    reveal_strlit(r"|it is important to note that|");
    reveal_strlit(r"|keep in mind that|");
    reveal_strlit(r"|note that|");
    reveal_strlit(r"|please note that|");
    reveal_strlit(r"|it should be noted that)\s*");
    assert(p.take(34) =~= r"(?im)\b(?:it is worth noting that|"@);
    assert(starts_with(p.skip(33), r"|it is important to remember that|"@)) by {
        assert(p.skip(33).take(34) =~= r"|it is important to remember that|"@);
    }
    assert(starts_with(p.skip(66), r"|it is important to note that|"@)) by {
        assert(p.skip(66).take(30) =~= r"|it is important to note that|"@);
    }
    assert(starts_with(p.skip(95), r"|keep in mind that|"@)) by {
        assert(p.skip(95).take(19) =~= r"|keep in mind that|"@);
    }
    assert(starts_with(p.skip(113), r"|note that|"@)) by {
        assert(p.skip(113).take(11) =~= r"|note that|"@);
    }
    assert(starts_with(p.skip(123), r"|please note that|"@)) by {
        assert(p.skip(123).take(18) =~= r"|please note that|"@);
    }
    assert(p.skip(140) =~= r"|it should be noted that)\s*"@);
}

/// The pattern of the transition padding at the start of a line (In conclusion, To summarize, To recap, At the end of the day, In summary, All in all, Ultimately), case-insensitive: each phrase is a whole alternative of the
/// group.
pub proof fn lemma_transition_pattern_listed()
    ensures
        starts_with(transition_pattern(), r"(?im)^[ \t]*(?:In conclusion|"@),
        contains_seq(transition_pattern(), r"|To summarize|"@),
        contains_seq(transition_pattern(), r"|To recap|"@),
        contains_seq(transition_pattern(), r"|At the end of the day|"@),
        contains_seq(transition_pattern(), r"|In summary|"@),
        contains_seq(transition_pattern(), r"|All in all|"@),
        transition_pattern().skip(94) == r"|Ultimately)[,\s]+"@,
{
    let p = transition_pattern();
    reveal_strlit(r"(?im)^[ \t]*(?:In conclusion|To summarize|To recap|At the end of the day|In summary|All in all|Ultimately)[,\s]+");
    reveal_strlit(r"(?im)^[ \t]*(?:In conclusion|");
    reveal_strlit(r"|To summarize|");
    reveal_strlit(r"|To recap|");
    reveal_strlit(r"|At the end of the day|");
    reveal_strlit(r"|In summary|");
    reveal_strlit(r"|All in all|");
    reveal_strlit(r"|Ultimately)[,\s]+");
    assert(p.take(29) =~= r"(?im)^[ \t]*(?:In conclusion|"@);
    assert(starts_with(p.skip(28), r"|To summarize|"@)) by {
        assert(p.skip(28).take(14) =~= r"|To summarize|"@);
    }
    assert(starts_with(p.skip(41), r"|To recap|"@)) by {
        assert(p.skip(41).take(10) =~= r"|To recap|"@);
    }
    assert(starts_with(p.skip(50), r"|At the end of the day|"@)) by {
        assert(p.skip(50).take(23) =~= r"|At the end of the day|"@);
    }
    assert(starts_with(p.skip(72), r"|In summary|"@)) by {
        assert(p.skip(72).take(12) =~= r"|In summary|"@);
    }
    assert(starts_with(p.skip(83), r"|All in all|"@)) by {
        assert(p.skip(83).take(12) =~= r"|All in all|"@);
    }
    assert(p.skip(94) =~= r"|Ultimately)[,\s]+"@);
}

/// The pattern of the hollow intensifiers, as whole words in any case (utilize, facilitate, leverage, implement, commence, endeavor, terminate, obtain, regarding, additional, individuals, methodology, seamlessly, robust, straightforward, scalable, cutting-edge, state-of-the-art, comprehensive, streamline, synergy, paradigm, holistic, proactive): each phrase is a whole alternative of the
/// group.
pub proof fn lemma_hollow_pattern_listed()
    ensures
        starts_with(hollow_pattern(), r"(?i)\b(utilize|"@),
        contains_seq(hollow_pattern(), r"|facilitate|"@),
        contains_seq(hollow_pattern(), r"|leverage|"@),
        contains_seq(hollow_pattern(), r"|implement|"@),
        contains_seq(hollow_pattern(), r"|commence|"@),
        contains_seq(hollow_pattern(), r"|endeavor|"@),
        contains_seq(hollow_pattern(), r"|terminate|"@),
        contains_seq(hollow_pattern(), r"|obtain|"@),
        contains_seq(hollow_pattern(), r"|regarding|"@),
        contains_seq(hollow_pattern(), r"|additional|"@),
        contains_seq(hollow_pattern(), r"|individuals|"@),
        contains_seq(hollow_pattern(), r"|methodology|"@),
        contains_seq(hollow_pattern(), r"|seamlessly|"@),
        contains_seq(hollow_pattern(), r"|robust|"@),
        contains_seq(hollow_pattern(), r"|straightforward|"@),
        contains_seq(hollow_pattern(), r"|scalable|"@),
        contains_seq(hollow_pattern(), r"|cutting-edge|"@),
        contains_seq(hollow_pattern(), r"|state-of-the-art|"@),
        contains_seq(hollow_pattern(), r"|comprehensive|"@),
        contains_seq(hollow_pattern(), r"|streamline|"@),
        contains_seq(hollow_pattern(), r"|synergy|"@),
        contains_seq(hollow_pattern(), r"|paradigm|"@),
        contains_seq(hollow_pattern(), r"|holistic|"@),
        hollow_pattern().skip(248) == r"|proactive)\b"@,
{
    let p = hollow_pattern();
    reveal_strlit(r"(?i)\b(utilize|facilitate|leverage|implement|commence|endeavor|terminate|obtain|regarding|additional|individuals|methodology|seamlessly|robust|straightforward|scalable|cutting-edge|state-of-the-art|comprehensive|streamline|synergy|paradigm|holistic|proactive)\b");
    reveal_strlit(r"(?i)\b(utilize|");
    reveal_strlit(r"|facilitate|");
    reveal_strlit(r"|leverage|");
    reveal_strlit(r"|implement|");
    reveal_strlit(r"|commence|");
    reveal_strlit(r"|endeavor|");
    reveal_strlit(r"|terminate|");
    reveal_strlit(r"|obtain|");
    reveal_strlit(r"|regarding|");
    reveal_strlit(r"|additional|");
    reveal_strlit(r"|individuals|");
    reveal_strlit(r"|methodology|");
    reveal_strlit(r"|seamlessly|");
    reveal_strlit(r"|robust|");
    reveal_strlit(r"|straightforward|");
    reveal_strlit(r"|scalable|");
    reveal_strlit(r"|cutting-edge|");
    reveal_strlit(r"|state-of-the-art|");
    reveal_strlit(r"|comprehensive|");
    reveal_strlit(r"|streamline|");
    reveal_strlit(r"|synergy|");
    reveal_strlit(r"|paradigm|");
    reveal_strlit(r"|holistic|");
    reveal_strlit(r"|proactive)\b");
    assert(p.take(15) =~= r"(?i)\b(utilize|"@);
    assert(starts_with(p.skip(14), r"|facilitate|"@)) by {
        assert(p.skip(14).take(12) =~= r"|facilitate|"@);
    }
    assert(starts_with(p.skip(25), r"|leverage|"@)) by {
        assert(p.skip(25).take(10) =~= r"|leverage|"@);
    }
    assert(starts_with(p.skip(34), r"|implement|"@)) by {
        assert(p.skip(34).take(11) =~= r"|implement|"@);
    }
    assert(starts_with(p.skip(44), r"|commence|"@)) by {
        assert(p.skip(44).take(10) =~= r"|commence|"@);
    }
    assert(starts_with(p.skip(53), r"|endeavor|"@)) by {
        assert(p.skip(53).take(10) =~= r"|endeavor|"@);
    }
    assert(starts_with(p.skip(62), r"|terminate|"@)) by {
        assert(p.skip(62).take(11) =~= r"|terminate|"@);
    }
    assert(starts_with(p.skip(72), r"|obtain|"@)) by {
        assert(p.skip(72).take(8) =~= r"|obtain|"@);
    }
    assert(starts_with(p.skip(79), r"|regarding|"@)) by {
        assert(p.skip(79).take(11) =~= r"|regarding|"@);
    }
    assert(starts_with(p.skip(89), r"|additional|"@)) by {
        assert(p.skip(89).take(12) =~= r"|additional|"@);
    }
    assert(starts_with(p.skip(100), r"|individuals|"@)) by {
        assert(p.skip(100).take(13) =~= r"|individuals|"@);
    }
    assert(starts_with(p.skip(112), r"|methodology|"@)) by {
        assert(p.skip(112).take(13) =~= r"|methodology|"@);
    }
    assert(starts_with(p.skip(124), r"|seamlessly|"@)) by {
        assert(p.skip(124).take(12) =~= r"|seamlessly|"@);
    }
    assert(starts_with(p.skip(135), r"|robust|"@)) by {
        assert(p.skip(135).take(8) =~= r"|robust|"@);
    }
    assert(starts_with(p.skip(142), r"|straightforward|"@)) by {
        assert(p.skip(142).take(17) =~= r"|straightforward|"@);
    }
    assert(starts_with(p.skip(158), r"|scalable|"@)) by {
        assert(p.skip(158).take(10) =~= r"|scalable|"@);
    }
    assert(starts_with(p.skip(167), r"|cutting-edge|"@)) by {
        assert(p.skip(167).take(14) =~= r"|cutting-edge|"@);
    }
    assert(starts_with(p.skip(180), r"|state-of-the-art|"@)) by {
        assert(p.skip(180).take(18) =~= r"|state-of-the-art|"@);
    }
    assert(starts_with(p.skip(197), r"|comprehensive|"@)) by {
        assert(p.skip(197).take(15) =~= r"|comprehensive|"@);
    }
    assert(starts_with(p.skip(211), r"|streamline|"@)) by {
        assert(p.skip(211).take(12) =~= r"|streamline|"@);
    }
    assert(starts_with(p.skip(222), r"|synergy|"@)) by {
        assert(p.skip(222).take(9) =~= r"|synergy|"@);
    }
    assert(starts_with(p.skip(230), r"|paradigm|"@)) by {
        assert(p.skip(230).take(10) =~= r"|paradigm|"@);
    }
    assert(starts_with(p.skip(239), r"|holistic|"@)) by {
        assert(p.skip(239).take(10) =~= r"|holistic|"@);
    }
    assert(p.skip(248) =~= r"|proactive)\b"@);
}

} // verus!
