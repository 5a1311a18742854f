//! Every rule of the library behind one type, and the default registry.

use vstd::prelude::*;
use vstd::string::*;
use vstd::utf8::*;
use super::chars::{char_hits, char_match_view, char_rule_result, is_hit, CharClass};
use crate::text::scalar_at;
use super::code::{DocstringFillerRule, TrivialCommentRule};
use super::custom::{listed, phrase_pattern, texts, CustomFileRule, CustomPhraseRule};
use super::emoji::{first_scalars, DecorativeUnicodeRule, EmojiRule};
use super::lang_packs::{
    PythonArgsBoilerplateRule, PythonNumpyEmptySectionRule, RustTrivialModDocRule,
    RustVerboseDocRule,
};
use super::prose::{
    FillerOpenersRule, HedgesRule, HollowIntensifiersRule, SycophanticClosersRule,
    TransitionPaddingRule,
};
use super::typography::{
    CurlyQuotesRule, EllipsisRule, EmDashRule, EnDashRule, NbspRule, SoftHyphenRule,
    ZeroWidthRule,
};
use super::{
    spec_stack_allows, stack_allows, views, Category, KindView, FileTypeFilter, Match, MatchView, Profile,
    ExplanationView, RuleExplanation, Span,
};
use crate::bindings::regex_error_text;

verus! {

/// What a character rule reports: one match per character of the class
/// that is not allowed, in order of position.
pub open spec fn char_views(b: Seq<u8>, class: CharClass, allow: Seq<u32>) -> Seq<MatchView> {
    let hits = char_hits(b, class, allow, b.len() as int);
    Seq::new(hits.len(), |k: int| char_match_view(b, class, hits[k]))
}

proof fn lemma_char_views(b: Seq<u8>, class: CharClass, allow: Seq<u32>, r: Seq<Match>)
    requires
        char_rule_result(b, class, allow, r),
    ensures
        views(r) == char_views(b, class, allow),
{
    assert(views(r) =~= char_views(b, class, allow));
}

/// What a character rule reports on the first `n` bytes.
pub open spec fn char_views_upto(b: Seq<u8>, class: CharClass, allow: Seq<u32>, n: int) -> Seq<MatchView> {
    let hits = char_hits(b, class, allow, n);
    Seq::new(hits.len(), |k: int| char_match_view(b, class, hits[k]))
}

/// A rule with an allow list reports what the same rule with an empty list
/// reports, less the matches whose character is allowed.
pub proof fn lemma_allow_list_filters(b: Seq<u8>, class: CharClass, allow: Seq<u32>)
    ensures
        char_views(b, class, allow) == char_views(b, class, seq![]).filter(
            |m: MatchView| !allow.contains(scalar_at(b, m.start)),
        ),
{
    lemma_allow_list_filters_upto(b, class, allow, b.len() as int);
}

proof fn lemma_allow_list_filters_upto(b: Seq<u8>, class: CharClass, allow: Seq<u32>, n: int)
    ensures
        char_views_upto(b, class, allow, n) == char_views_upto(b, class, seq![], n).filter(
            |m: MatchView| !allow.contains(scalar_at(b, m.start)),
        ),
    decreases n,
{
    let pred = |m: MatchView| !allow.contains(scalar_at(b, m.start));
    if n <= 0 {
        reveal(Seq::filter);
        assert(char_views_upto(b, class, seq![], n) =~= Seq::<MatchView>::empty());
        assert(char_views_upto(b, class, allow, n) =~= Seq::<MatchView>::empty());
    } else {
        lemma_allow_list_filters_upto(b, class, allow, n - 1);
        let ea = char_views_upto(b, class, allow, n - 1);
        let e0 = char_views_upto(b, class, seq![], n - 1);
        let m = char_match_view(b, class, n - 1);
        let none: Seq<u32> = seq![];
        assert(!none.contains(scalar_at(b, n - 1)));
        if is_hit(b, class, none, n - 1) {
            assert(char_views_upto(b, class, seq![], n) =~= e0.push(m));
            e0.lemma_filter_push(m, pred);
            if is_hit(b, class, allow, n - 1) {
                assert(char_views_upto(b, class, allow, n) =~= ea.push(m));
            } else {
                assert(char_views_upto(b, class, allow, n) =~= ea);
            }
        } else {
            assert(char_views_upto(b, class, seq![], n) =~= e0);
            assert(char_views_upto(b, class, allow, n) =~= ea);
        }
    }
}

/// The curly-quotes rule straightens quotes: a match on a single curly
/// quote (U+2018, U+2019) is replaced by the ASCII apostrophe, and a match
/// on a double one (U+201C, U+201D) by the ASCII double quote; every match
/// lies on one of these four characters.
pub proof fn lemma_curly_quotes_straightened(b: Seq<u8>)
    ensures
        forall|k: int|
            0 <= k < char_views(b, CharClass::CurlyQuote, seq![]).len() ==> {
                let m = #[trigger] char_views(b, CharClass::CurlyQuote, seq![])[k];
                let c = scalar_at(b, m.start);
                &&& c == 0x2018 || c == 0x2019 || c == 0x201C || c == 0x201D
                &&& (c == 0x2018 || c == 0x2019) ==> m.kind == KindView::Replace(seq!['\''])
                    && m.suggestion == seq!['\'']
                &&& (c == 0x201C || c == 0x201D) ==> m.kind == KindView::Replace(seq!['"'])
                    && m.suggestion == seq!['"']
            },
{
    reveal_strlit("'");
    reveal_strlit("\"");
    let none: Seq<u32> = seq![];
    lemma_allow_list_filters_upto(b, CharClass::CurlyQuote, none, b.len() as int);
    let hits = char_hits(b, CharClass::CurlyQuote, none, b.len() as int);
    crate::rules::chars::lemma_allow_list(b, CharClass::CurlyQuote, none, b.len() as int);
    assert forall|k: int| 0 <= k < char_views(b, CharClass::CurlyQuote, none).len() implies {
        let m = #[trigger] char_views(b, CharClass::CurlyQuote, none)[k];
        let c = scalar_at(b, m.start);
        &&& c == 0x2018 || c == 0x2019 || c == 0x201C || c == 0x201D
        &&& (c == 0x2018 || c == 0x2019) ==> m.kind == KindView::Replace(seq!['\'']) && m.suggestion
            == seq!['\'']
        &&& (c == 0x201C || c == 0x201D) ==> m.kind == KindView::Replace(seq!['"']) && m.suggestion
            == seq!['"']
    } by {
        assert(char_views(b, CharClass::CurlyQuote, none)[k] == char_match_view(b, CharClass::CurlyQuote, hits[k]));
        assert("'"@ =~= seq!['\'']);
        assert("\""@ =~= seq!['"']);
    }
}

/// A character rule's match `k`: on a character of its class, fixed by the
/// class's replacement.
proof fn lemma_char_view_parts(b: Seq<u8>, class: CharClass, allow: Seq<u32>, k: int)
    requires
        0 <= k < char_views(b, class, allow).len(),
    ensures
        class.spec_contains(scalar_at(b, char_views(b, class, allow)[k].start)),
        char_views(b, class, allow)[k].kind == KindView::Replace(
            class.spec_suggestion(scalar_at(b, char_views(b, class, allow)[k].start)),
        ),
        char_views(b, class, allow)[k].suggestion == class.spec_suggestion(
            scalar_at(b, char_views(b, class, allow)[k].start),
        ),
{
    crate::rules::chars::lemma_allow_list(b, class, allow, b.len() as int);
    let hits = char_hits(b, class, allow, b.len() as int);
    assert(char_views(b, class, allow)[k] == char_match_view(b, class, hits[k]));
}

/// The typographic rules' fixes: an em or en dash becomes ` - `, an
/// ellipsis `...`, a non-breaking space a plain space; zero-width
/// characters and soft hyphens, emoji and decorative symbols are deleted.
/// Each match lies on a character the rule is about.
pub proof fn lemma_typography_fixes(b: Seq<u8>, allow: Seq<u32>, k: int)
    ensures
        0 <= k < char_views(b, CharClass::EmDash, seq![]).len() ==> {
            let m = char_views(b, CharClass::EmDash, seq![])[k];
            scalar_at(b, m.start) == 0x2014 && m.kind == KindView::Replace(seq![' ', '-', ' '])
        },
        0 <= k < char_views(b, CharClass::EnDash, seq![]).len() ==> {
            let m = char_views(b, CharClass::EnDash, seq![])[k];
            scalar_at(b, m.start) == 0x2013 && m.kind == KindView::Replace(seq![' ', '-', ' '])
        },
        0 <= k < char_views(b, CharClass::Ellipsis, seq![]).len() ==> {
            let m = char_views(b, CharClass::Ellipsis, seq![])[k];
            scalar_at(b, m.start) == 0x2026 && m.kind == KindView::Replace(seq!['.', '.', '.'])
        },
        0 <= k < char_views(b, CharClass::Nbsp, seq![]).len() ==> {
            let m = char_views(b, CharClass::Nbsp, seq![])[k];
            scalar_at(b, m.start) == 0xA0 && m.kind == KindView::Replace(seq![' '])
        },
        0 <= k < char_views(b, CharClass::ZeroWidth, seq![]).len() ==> {
            let m = char_views(b, CharClass::ZeroWidth, seq![])[k];
            let c = scalar_at(b, m.start);
            (c == 0x200B || c == 0x200C || c == 0x200D || c == 0xFEFF) && m.kind == KindView::Replace(
                Seq::empty(),
            )
        },
        0 <= k < char_views(b, CharClass::SoftHyphen, seq![]).len() ==> {
            let m = char_views(b, CharClass::SoftHyphen, seq![])[k];
            scalar_at(b, m.start) == 0xAD && m.kind == KindView::Replace(Seq::empty())
        },
        0 <= k < char_views(b, CharClass::Emoji, allow).len() ==> char_views(b, CharClass::Emoji, allow)[k].kind
            == KindView::Replace(Seq::empty()),
        0 <= k < char_views(b, CharClass::Decorative, allow).len() ==> char_views(
            b,
            CharClass::Decorative,
            allow,
        )[k].kind == KindView::Replace(Seq::empty()),
{
    reveal_strlit(" - ");
    reveal_strlit("...");
    reveal_strlit(" ");
    reveal_strlit("");
    assert(" - "@ =~= seq![' ', '-', ' ']);
    assert("..."@ =~= seq!['.', '.', '.']);
    assert(" "@ =~= seq![' ']);
    assert(""@ =~= Seq::<char>::empty());
    let none: Seq<u32> = seq![];
    if 0 <= k < char_views(b, CharClass::EmDash, none).len() {
        lemma_char_view_parts(b, CharClass::EmDash, none, k);
    }
    if 0 <= k < char_views(b, CharClass::EnDash, none).len() {
        lemma_char_view_parts(b, CharClass::EnDash, none, k);
    }
    if 0 <= k < char_views(b, CharClass::Ellipsis, none).len() {
        lemma_char_view_parts(b, CharClass::Ellipsis, none, k);
    }
    if 0 <= k < char_views(b, CharClass::Nbsp, none).len() {
        lemma_char_view_parts(b, CharClass::Nbsp, none, k);
    }
    if 0 <= k < char_views(b, CharClass::ZeroWidth, none).len() {
        lemma_char_view_parts(b, CharClass::ZeroWidth, none, k);
    }
    if 0 <= k < char_views(b, CharClass::SoftHyphen, none).len() {
        lemma_char_view_parts(b, CharClass::SoftHyphen, none, k);
    }
    if 0 <= k < char_views(b, CharClass::Emoji, allow).len() {
        lemma_char_view_parts(b, CharClass::Emoji, allow, k);
    }
    if 0 <= k < char_views(b, CharClass::Decorative, allow).len() {
        lemma_char_view_parts(b, CharClass::Decorative, allow, k);
    }
}

/// A detection rule: every rule of the library.
pub enum Rule {
    EmDash(EmDashRule),
    EnDash(EnDashRule),
    CurlyQuotes(CurlyQuotesRule),
    Ellipsis(EllipsisRule),
    Nbsp(NbspRule),
    ZeroWidth(ZeroWidthRule),
    SoftHyphen(SoftHyphenRule),
    Emoji(EmojiRule),
    DecorativeUnicode(DecorativeUnicodeRule),
    FillerOpeners(FillerOpenersRule),
    SycophanticClosers(SycophanticClosersRule),
    Hedges(HedgesRule),
    TransitionPadding(TransitionPaddingRule),
    HollowIntensifiers(HollowIntensifiersRule),
    TrivialComment(TrivialCommentRule),
    DocstringFiller(DocstringFillerRule),
    CustomPhrases(CustomPhraseRule),
    RustVerboseDoc(RustVerboseDocRule),
    RustTrivialModDoc(RustTrivialModDocRule),
    PythonArgsBoilerplate(PythonArgsBoilerplateRule),
    PythonNumpyEmptySection(PythonNumpyEmptySectionRule),
    CustomFile(CustomFileRule),
}

impl Rule {
    /// The rule's stable identifier.
    pub open spec fn spec_id(&self) -> Seq<char> {
        match self {
            Rule::EmDash(_) => "em-dash"@,
            Rule::EnDash(_) => "en-dash"@,
            Rule::CurlyQuotes(_) => "curly-quotes"@,
            Rule::Ellipsis(_) => "ellipsis"@,
            Rule::Nbsp(_) => "nbsp"@,
            Rule::ZeroWidth(_) => "zero-width"@,
            Rule::SoftHyphen(_) => "soft-hyphen"@,
            Rule::Emoji(_) => "emoji"@,
            Rule::DecorativeUnicode(_) => "decorative-unicode"@,
            Rule::FillerOpeners(_) => "filler-openers"@,
            Rule::SycophanticClosers(_) => "sycophantic-closers"@,
            Rule::Hedges(_) => "hedges"@,
            Rule::TransitionPadding(_) => "transition-padding"@,
            Rule::HollowIntensifiers(_) => "hollow-intensifiers"@,
            Rule::TrivialComment(_) => "trivial-comment"@,
            Rule::DocstringFiller(_) => "docstring-filler"@,
            Rule::CustomPhrases(_) => "custom-phrases"@,
            Rule::RustVerboseDoc(_) => "rust-verbose-doc"@,
            Rule::RustTrivialModDoc(_) => "rust-trivial-mod-doc"@,
            Rule::PythonArgsBoilerplate(_) => "python-args-boilerplate"@,
            Rule::PythonNumpyEmptySection(_) => "python-empty-docstring-section"@,
            Rule::CustomFile(r) => r.spec_parsed().name,
        }
    }

    /// Stable string ID for this rule (used by --fix and --skip).
    pub fn id(&self) -> (r: &str)
        ensures
            r@ == self.spec_id(),
    {
        match self {
            Rule::EmDash(r) => r.id(),
            Rule::EnDash(r) => r.id(),
            Rule::CurlyQuotes(r) => r.id(),
            Rule::Ellipsis(r) => r.id(),
            Rule::Nbsp(r) => r.id(),
            Rule::ZeroWidth(r) => r.id(),
            Rule::SoftHyphen(r) => r.id(),
            Rule::Emoji(r) => r.id(),
            Rule::DecorativeUnicode(r) => r.id(),
            Rule::FillerOpeners(r) => r.id(),
            Rule::SycophanticClosers(r) => r.id(),
            Rule::Hedges(r) => r.id(),
            Rule::TransitionPadding(r) => r.id(),
            Rule::HollowIntensifiers(r) => r.id(),
            Rule::TrivialComment(r) => r.id(),
            Rule::DocstringFiller(r) => r.id(),
            Rule::CustomPhrases(r) => r.id(),
            Rule::RustVerboseDoc(r) => r.id(),
            Rule::RustTrivialModDoc(r) => r.id(),
            Rule::PythonArgsBoilerplate(r) => r.id(),
            Rule::PythonNumpyEmptySection(r) => r.id(),
            Rule::CustomFile(r) => r.id(),
        }
    }

    /// The category the rule belongs to.
    pub open spec fn spec_category(&self) -> Category {
        match self {
            Rule::EmDash(_) | Rule::EnDash(_) | Rule::CurlyQuotes(_) | Rule::Ellipsis(_)
            | Rule::Nbsp(_) | Rule::ZeroWidth(_) | Rule::SoftHyphen(_) => Category::Typographic,
            Rule::Emoji(_) | Rule::DecorativeUnicode(_) => Category::Symbol,
            Rule::FillerOpeners(_) | Rule::SycophanticClosers(_) | Rule::Hedges(_)
            | Rule::TransitionPadding(_) | Rule::HollowIntensifiers(_) => Category::Prose,
            Rule::TrivialComment(_) | Rule::DocstringFiller(_) => Category::Code,
            Rule::CustomPhrases(_) | Rule::CustomFile(_) => Category::Custom,
            Rule::RustVerboseDoc(_) | Rule::RustTrivialModDoc(_) | Rule::PythonArgsBoilerplate(_)
            | Rule::PythonNumpyEmptySection(_) => Category::PackSpecific,
        }
    }

    /// The category this rule belongs to.
    pub fn category(&self) -> (r: Category)
        ensures
            r == self.spec_category(),
    {
        match self {
            Rule::EmDash(r) => r.category(),
            Rule::EnDash(r) => r.category(),
            Rule::CurlyQuotes(r) => r.category(),
            Rule::Ellipsis(r) => r.category(),
            Rule::Nbsp(r) => r.category(),
            Rule::ZeroWidth(r) => r.category(),
            Rule::SoftHyphen(r) => r.category(),
            Rule::Emoji(r) => r.category(),
            Rule::DecorativeUnicode(r) => r.category(),
            Rule::FillerOpeners(r) => r.category(),
            Rule::SycophanticClosers(r) => r.category(),
            Rule::Hedges(r) => r.category(),
            Rule::TransitionPadding(r) => r.category(),
            Rule::HollowIntensifiers(r) => r.category(),
            Rule::TrivialComment(r) => r.category(),
            Rule::DocstringFiller(r) => r.category(),
            Rule::CustomPhrases(r) => r.category(),
            Rule::RustVerboseDoc(r) => r.category(),
            Rule::RustTrivialModDoc(r) => r.category(),
            Rule::PythonArgsBoilerplate(r) => r.category(),
            Rule::PythonNumpyEmptySection(r) => r.category(),
            Rule::CustomFile(r) => r.category(),
        }
    }

    /// The file types the rule applies to.
    pub open spec fn spec_filter(&self) -> FileTypeFilter {
        match self {
            Rule::TrivialComment(_) | Rule::DocstringFiller(_) | Rule::RustVerboseDoc(_)
            | Rule::RustTrivialModDoc(_) | Rule::PythonArgsBoilerplate(_)
            | Rule::PythonNumpyEmptySection(_) => FileTypeFilter::CodeOnly,
            _ => FileTypeFilter::All,
        }
    }

    /// The file type filter for this rule.
    pub fn file_type_filter(&self) -> (r: FileTypeFilter)
        ensures
            r == self.spec_filter(),
    {
        match self {
            Rule::EmDash(r) => r.file_type_filter(),
            Rule::EnDash(r) => r.file_type_filter(),
            Rule::CurlyQuotes(r) => r.file_type_filter(),
            Rule::Ellipsis(r) => r.file_type_filter(),
            Rule::Nbsp(r) => r.file_type_filter(),
            Rule::ZeroWidth(r) => r.file_type_filter(),
            Rule::SoftHyphen(r) => r.file_type_filter(),
            Rule::Emoji(r) => r.file_type_filter(),
            Rule::DecorativeUnicode(r) => r.file_type_filter(),
            Rule::FillerOpeners(r) => r.file_type_filter(),
            Rule::SycophanticClosers(r) => r.file_type_filter(),
            Rule::Hedges(r) => r.file_type_filter(),
            Rule::TransitionPadding(r) => r.file_type_filter(),
            Rule::HollowIntensifiers(r) => r.file_type_filter(),
            Rule::TrivialComment(r) => r.file_type_filter(),
            Rule::DocstringFiller(r) => r.file_type_filter(),
            Rule::CustomPhrases(r) => r.file_type_filter(),
            Rule::RustVerboseDoc(r) => r.file_type_filter(),
            Rule::RustTrivialModDoc(r) => r.file_type_filter(),
            Rule::PythonArgsBoilerplate(r) => r.file_type_filter(),
            Rule::PythonNumpyEmptySection(r) => r.file_type_filter(),
            Rule::CustomFile(r) => r.file_type_filter(),
        }
    }

    /// The matches of the rule on a text.
    pub open spec fn spec_check(&self, content: Seq<char>) -> Seq<MatchView> {
        let b = encode_utf8(content);
        match self {
            Rule::EmDash(_) => char_views(b, CharClass::EmDash, seq![]),
            Rule::EnDash(_) => char_views(b, CharClass::EnDash, seq![]),
            Rule::CurlyQuotes(_) => char_views(b, CharClass::CurlyQuote, seq![]),
            Rule::Ellipsis(_) => char_views(b, CharClass::Ellipsis, seq![]),
            Rule::Nbsp(_) => char_views(b, CharClass::Nbsp, seq![]),
            Rule::ZeroWidth(_) => char_views(b, CharClass::ZeroWidth, seq![]),
            Rule::SoftHyphen(_) => char_views(b, CharClass::SoftHyphen, seq![]),
            Rule::Emoji(r) => char_views(b, CharClass::Emoji, r.allowed()),
            Rule::DecorativeUnicode(r) => char_views(b, CharClass::Decorative, r.allowed()),
            Rule::FillerOpeners(_) => FillerOpenersRule::spec_check(content),
            Rule::SycophanticClosers(_) => SycophanticClosersRule::spec_check(content),
            Rule::Hedges(_) => HedgesRule::spec_check(content),
            Rule::TransitionPadding(_) => TransitionPaddingRule::spec_check(content),
            Rule::HollowIntensifiers(_) => HollowIntensifiersRule::spec_check(content),
            Rule::TrivialComment(_) => TrivialCommentRule::spec_check(content),
            Rule::DocstringFiller(_) => DocstringFillerRule::spec_check(content),
            Rule::CustomPhrases(r) => r.spec_check(content),
            Rule::RustVerboseDoc(_) => RustVerboseDocRule::spec_check(content),
            Rule::RustTrivialModDoc(_) => RustTrivialModDocRule::spec_check(content),
            Rule::PythonArgsBoilerplate(_) => PythonArgsBoilerplateRule::spec_check(content),
            Rule::PythonNumpyEmptySection(_) => PythonNumpyEmptySectionRule::spec_check(content),
            Rule::CustomFile(r) => r.spec_check(content),
        }
    }

    /// The rule can run on the text: only the NumPy section rule has texts
    /// it cannot report on.
    pub open spec fn spec_total(&self, content: Seq<char>) -> bool {
        match self {
            Rule::PythonNumpyEmptySection(_) => PythonNumpyEmptySectionRule::spec_total(content),
            _ => true,
        }
    }

    /// Run this rule against the given content: all its matches, or `None`
    /// when the rule cannot report on this text.
    pub fn try_check(&self, content: &str, comment_spans: Option<&[Span]>) -> (r: Option<Vec<Match>>)
        requires
            content.spec_bytes().len() < usize::MAX,
        ensures
            r is Some <==> self.spec_total(content@),
            r matches Some(v) ==> views(v@) == self.spec_check(content@),
    {
        let ghost b = content.spec_bytes();
        match self {
            Rule::EmDash(r) => {
                let v = r.check(content, comment_spans);
                proof { lemma_char_views(b, CharClass::EmDash, seq![], v@); }
                Some(v)
            },
            Rule::EnDash(r) => {
                let v = r.check(content, comment_spans);
                proof { lemma_char_views(b, CharClass::EnDash, seq![], v@); }
                Some(v)
            },
            Rule::CurlyQuotes(r) => {
                let v = r.check(content, comment_spans);
                proof { lemma_char_views(b, CharClass::CurlyQuote, seq![], v@); }
                Some(v)
            },
            Rule::Ellipsis(r) => {
                let v = r.check(content, comment_spans);
                proof { lemma_char_views(b, CharClass::Ellipsis, seq![], v@); }
                Some(v)
            },
            Rule::Nbsp(r) => {
                let v = r.check(content, comment_spans);
                proof { lemma_char_views(b, CharClass::Nbsp, seq![], v@); }
                Some(v)
            },
            Rule::ZeroWidth(r) => {
                let v = r.check(content, comment_spans);
                proof { lemma_char_views(b, CharClass::ZeroWidth, seq![], v@); }
                Some(v)
            },
            Rule::SoftHyphen(r) => {
                let v = r.check(content, comment_spans);
                proof { lemma_char_views(b, CharClass::SoftHyphen, seq![], v@); }
                Some(v)
            },
            Rule::Emoji(r) => {
                let v = r.check(content, comment_spans);
                proof { lemma_char_views(b, CharClass::Emoji, r.allowed(), v@); }
                Some(v)
            },
            Rule::DecorativeUnicode(r) => {
                let v = r.check(content, comment_spans);
                proof { lemma_char_views(b, CharClass::Decorative, r.allowed(), v@); }
                Some(v)
            },
            Rule::FillerOpeners(r) => Some(r.check(content, comment_spans)),
            Rule::SycophanticClosers(r) => Some(r.check(content, comment_spans)),
            Rule::Hedges(r) => Some(r.check(content, comment_spans)),
            Rule::TransitionPadding(r) => Some(r.check(content, comment_spans)),
            Rule::HollowIntensifiers(r) => Some(r.check(content, comment_spans)),
            Rule::TrivialComment(r) => Some(r.check(content, comment_spans)),
            Rule::DocstringFiller(r) => Some(r.check(content, comment_spans)),
            Rule::CustomPhrases(r) => Some(r.check(content, comment_spans)),
            Rule::RustVerboseDoc(r) => Some(r.check(content, comment_spans)),
            Rule::RustTrivialModDoc(r) => Some(r.check(content, comment_spans)),
            Rule::PythonArgsBoilerplate(r) => Some(r.check(content, comment_spans)),
            Rule::PythonNumpyEmptySection(r) => r.try_check(content, comment_spans),
            Rule::CustomFile(r) => Some(r.check(content, comment_spans)),
        }
    }

    /// Run this rule against the given content and return all matches.
    /// `comment_spans` is provided for code files.
    pub fn check(&self, content: &str, comment_spans: Option<&[Span]>) -> (r: Vec<Match>)
        requires
            content.spec_bytes().len() < usize::MAX,
            self.spec_total(content@),
        ensures
            views(r@) == self.spec_check(content@),
    {
        self.try_check(content, comment_spans).unwrap()
    }

    /// What the rule looks for and what its fix does, for the rules that
    /// explain themselves.
    pub open spec fn spec_explanation(&self) -> Option<ExplanationView> {
        match self {
            Rule::FillerOpeners(r) => Some(r.spec_explanation()),
            Rule::RustVerboseDoc(r) => Some(r.spec_explanation()),
            Rule::RustTrivialModDoc(r) => Some(r.spec_explanation()),
            Rule::PythonArgsBoilerplate(r) => Some(r.spec_explanation()),
            Rule::PythonNumpyEmptySection(r) => Some(r.spec_explanation()),
            _ => None,
        }
    }

    /// What the rule looks for and what it does, for the rules that explain
    /// themselves.
    pub fn explain(&self) -> (r: Option<RuleExplanation>)
        ensures
            match r {
                Some(e) => self.spec_explanation() == Some(e@),
                None => self.spec_explanation() is None,
            },
    {
        match self {
            Rule::FillerOpeners(r) => Some(r.explain()),
            Rule::RustVerboseDoc(r) => Some(r.explain()),
            Rule::RustTrivialModDoc(r) => Some(r.explain()),
            Rule::PythonArgsBoilerplate(r) => Some(r.explain()),
            Rule::PythonNumpyEmptySection(r) => Some(r.explain()),
            _ => None,
        }
    }
}

/// The Rust pack rules.
pub fn rust_pack_rules() -> (r: Vec<Rule>)
    ensures
        r@.len() == 2,
        r@[0] is RustVerboseDoc,
        r@[1] is RustTrivialModDoc,
{
    vec![Rule::RustVerboseDoc(RustVerboseDocRule), Rule::RustTrivialModDoc(RustTrivialModDocRule)]
}

/// The Python pack rules.
pub fn python_pack_rules() -> (r: Vec<Rule>)
    ensures
        r@.len() == 2,
        r@[0] is PythonArgsBoilerplate,
        r@[1] is PythonNumpyEmptySection,
{
    vec![
        Rule::PythonArgsBoilerplate(PythonArgsBoilerplateRule),
        Rule::PythonNumpyEmptySection(PythonNumpyEmptySectionRule),
    ]
}

/// The built-in rules in registry order, which is also their priority when
/// matches overlap: typographic, symbol, prose and code rules, then the
/// custom phrases when there are any and their pattern compiles, then the
/// language packs.
pub open spec fn registry_shape(r: Seq<Rule>, allow: Seq<String>, phrases: Seq<String>) -> bool {
    let has_phrases = phrases.len() > 0 && regex_error_text(
        phrase_pattern(texts(phrases), phrases.len() as int),
    ) is None;
    let p = if has_phrases {
        17int
    } else {
        16int
    };
    &&& r.len() == p + 4
    &&& r[0] is EmDash
    &&& r[1] is EnDash
    &&& r[2] is CurlyQuotes
    &&& r[3] is Ellipsis
    &&& r[4] is Nbsp
    &&& r[5] is ZeroWidth
    &&& r[6] is SoftHyphen
    &&& (r[7] matches Rule::Emoji(e) && e.allowed() == first_scalars(allow))
    &&& (r[8] matches Rule::DecorativeUnicode(d) && d.allowed() == first_scalars(allow))
    &&& r[9] is FillerOpeners
    &&& r[10] is SycophanticClosers
    &&& r[11] is Hedges
    &&& r[12] is TransitionPadding
    &&& r[13] is HollowIntensifiers
    &&& r[14] is TrivialComment
    &&& r[15] is DocstringFiller
    &&& has_phrases ==> (r[16] matches Rule::CustomPhrases(c) && c.spec_pattern() == phrase_pattern(
        texts(phrases),
        phrases.len() as int,
    ))
    &&& r[p] is RustVerboseDoc
    &&& r[p + 1] is RustTrivialModDoc
    &&& r[p + 2] is PythonArgsBoilerplate
    &&& r[p + 3] is PythonNumpyEmptySection
}

/// Build the default registry of built-in rules.
pub fn build_registry(allow_symbols: &[String], custom_phrases: &[String]) -> (r: Vec<Rule>)
    ensures
        registry_shape(r@, allow_symbols@, custom_phrases@),
{
    let mut rules: Vec<Rule> = Vec::new();
    rules.push(Rule::EmDash(EmDashRule));
    rules.push(Rule::EnDash(EnDashRule));
    rules.push(Rule::CurlyQuotes(CurlyQuotesRule));
    rules.push(Rule::Ellipsis(EllipsisRule));
    rules.push(Rule::Nbsp(NbspRule));
    rules.push(Rule::ZeroWidth(ZeroWidthRule));
    rules.push(Rule::SoftHyphen(SoftHyphenRule));
    rules.push(Rule::Emoji(EmojiRule::new(allow_symbols)));
    rules.push(Rule::DecorativeUnicode(DecorativeUnicodeRule::new(allow_symbols)));
    rules.push(Rule::FillerOpeners(FillerOpenersRule::new()));
    rules.push(Rule::SycophanticClosers(SycophanticClosersRule::new()));
    rules.push(Rule::Hedges(HedgesRule::new()));
    rules.push(Rule::TransitionPadding(TransitionPaddingRule::new()));
    rules.push(Rule::HollowIntensifiers(HollowIntensifiersRule));
    rules.push(Rule::TrivialComment(TrivialCommentRule));
    rules.push(Rule::DocstringFiller(DocstringFillerRule::new()));
    if custom_phrases.len() > 0 {
        match CustomPhraseRule::new(custom_phrases) {
            Ok(rule) => rules.push(Rule::CustomPhrases(rule)),
            Err(_) => {},
        }
    }
    rules.push(Rule::RustVerboseDoc(RustVerboseDocRule));
    rules.push(Rule::RustTrivialModDoc(RustTrivialModDocRule));
    rules.push(Rule::PythonArgsBoilerplate(PythonArgsBoilerplateRule));
    rules.push(Rule::PythonNumpyEmptySection(PythonNumpyEmptySectionRule));
    rules
}


/// A rule survives selection: it is not skipped, and when a fix list is
/// given, it is on it.
pub open spec fn chosen(id: Seq<char>, skip: Seq<Seq<char>>, fix: Seq<Seq<char>>) -> bool {
    !skip.contains(id) && (fix.len() == 0 || fix.contains(id))
}

/// The rules of `rs` that pass the test, in order.
pub open spec fn rules_where(rs: Seq<Rule>, keep: spec_fn(Rule) -> bool) -> Seq<Rule>
    decreases rs.len(),
{
    if rs.len() == 0 {
        seq![]
    } else if keep(rs[0]) {
        seq![rs[0]] + rules_where(rs.skip(1), keep)
    } else {
        rules_where(rs.skip(1), keep)
    }
}

/// The rules a run uses: the built-in rules whose category the base profile
/// or an extra profile lets through, then the custom file rules; of those,
/// the ones not skipped and, when a fix list is given, on it.
pub open spec fn spec_select(
    built: Seq<Rule>,
    base: Profile,
    extras: Seq<Profile>,
    custom: Seq<Rule>,
    skip: Seq<Seq<char>>,
    fix: Seq<Seq<char>>,
) -> Seq<Rule> {
    rules_where(
        rules_where(built, |r: Rule| spec_stack_allows(base, extras, r.spec_category())) + custom,
        |r: Rule| chosen(r.spec_id(), skip, fix),
    )
}

/// Moves the rules that pass the test from `from` to the end of `to`.
fn move_where(to: &mut Vec<Rule>, from: Vec<Rule>, Ghost(keep): Ghost<spec_fn(Rule) -> bool>, base: Profile, extras: &Vec<Profile>, skip: &[String], fix: &[String], by_profile: bool)
    requires
        by_profile ==> keep == (|r: Rule| spec_stack_allows(base, extras@, r.spec_category())),
        !by_profile ==> keep == (|r: Rule| chosen(r.spec_id(), texts(skip@), texts(fix@))),
    ensures
        final(to)@ == old(to)@ + rules_where(from@, keep),
{
    let ghost orig = from@;
    let mut from = from;
    let ghost start = to@;
    while from.len() > 0
        invariant
            by_profile ==> keep == (|r: Rule| spec_stack_allows(base, extras@, r.spec_category())),
            !by_profile ==> keep == (|r: Rule| chosen(r.spec_id(), texts(skip@), texts(fix@))),
            to@ + rules_where(from@, keep) == start + rules_where(orig, keep),
        decreases from@.len(),
    {
        let ghost before = from@;
        let r = from.remove(0);
        assert(from@ =~= before.skip(1));
        let take = if by_profile {
            stack_allows(base, extras, r.category())
        } else {
            let id = r.id();
            !listed(skip, id) && (fix.len() == 0 || listed(fix, id))
        };
        assert(take == keep(r));
        if take {
            to.push(r);
            assert(to@ + rules_where(from@, keep) =~= start + rules_where(orig, keep));
        }
    }
    assert(rules_where(from@, keep) == Seq::<Rule>::empty());
    assert(to@ =~= start + rules_where(orig, keep));
}

/// The rules a run uses, from the built-in rules, the profiles, the custom
/// file rules and the skip and fix lists.
pub fn select_rules(
    built: Vec<Rule>,
    base: Profile,
    extras: &Vec<Profile>,
    custom: Vec<Rule>,
    skip: &[String],
    fix: &[String],
) -> (r: Vec<Rule>)
    ensures
        r@ == spec_select(built@, base, extras@, custom@, texts(skip@), texts(fix@)),
{
    let ghost by_cat = |r: Rule| spec_stack_allows(base, extras@, r.spec_category());
    let ghost by_id = |r: Rule| chosen(r.spec_id(), texts(skip@), texts(fix@));
    let mut allowed: Vec<Rule> = Vec::new();
    move_where(&mut allowed, built, Ghost(by_cat), base, extras, skip, fix, true);
    let ghost a = allowed@;
    let mut custom = custom;
    allowed.append(&mut custom);
    let mut out: Vec<Rule> = Vec::new();
    move_where(&mut out, allowed, Ghost(by_id), base, extras, skip, fix, false);
    out
}

} // verus!
