//! The match model shared by every rule, the profiles that gate rule
//! categories, and the character-class scanner behind the typographic and
//! symbol rules.

pub mod chars;
pub mod code;
pub mod custom;
pub mod emoji;
pub mod lang_packs;
pub mod pattern;
pub mod prose;
pub mod registry;
pub mod rules_file;
pub mod typography;

pub use registry::{build_registry, python_pack_rules, rust_pack_rules, Rule};

use vstd::prelude::*;
use vstd::string::*;
use vstd::utf8::*;
use core::ops::Range;
use crate::bindings::{lowercase_text, to_lowercase};
use crate::text::{boundary, char_start, line_col_at, push_str, scalar_at, str_eq, text_of, width_at};

verus! {

/// Confidence values are fixed-point numbers in ten-thousandths; this is 1.0.
pub const FULL_CONFIDENCE: u32 = 10000;

/// Category of a rule: set by the rule at match creation time, never inferred.
#[derive(Debug, Clone, Copy, PartialEq, Eq, Hash, Structural)]
pub enum Category {
    Typographic,
    Symbol,
    Prose,
    Code,
    Custom,
    PackSpecific,
}

impl Category {
    /// The lowercase display name of the category.
    pub open spec fn spec_name(self) -> Seq<char> {
        match self {
            Category::Typographic => "typographic"@,
            Category::Symbol => "symbol"@,
            Category::Prose => "prose"@,
            Category::Code => "code"@,
            Category::Custom => "custom"@,
            Category::PackSpecific => "pack-specific"@,
        }
    }

    /// The lowercase display name of the category.
    pub fn name(&self) -> (r: &'static str)
        ensures
            r@ == self.spec_name(),
    {
        match self {
            Category::Typographic => "typographic",
            Category::Symbol => "symbol",
            Category::Prose => "prose",
            Category::Code => "code",
            Category::Custom => "custom",
            Category::PackSpecific => "pack-specific",
        }
    }
}

/// Severity level for a match.
#[derive(Debug, Clone, Copy, PartialEq, Eq, Hash, Structural)]
pub enum Severity {
    Warn,
    Error,
}

impl Severity {
    /// The lowercase display name of the severity.
    pub fn name(&self) -> (r: &'static str)
        ensures
            r@ == (match self {
                Severity::Warn => "warn"@,
                Severity::Error => "error"@,
            }),
    {
        match self {
            Severity::Warn => "warn",
            Severity::Error => "error",
        }
    }
}

/// What kind of fix a match represents.
#[derive(Debug, Clone)]
pub enum MatchKind {
    /// Replace the matched byte range with the given string.
    Replace(String),
    /// Delete the entire line containing the match, including its newline.
    DeleteLine,
    /// Delete an entire block (e.g., a docstring) from opening to closing delimiter.
    DeleteBlock,
    /// Flag only: shown in reports and interactive mode, never written to disk.
    FlagOnly,
}

/// The mathematical value of a [`MatchKind`].
pub enum KindView {
    Replace(Seq<char>),
    DeleteLine,
    DeleteBlock,
    FlagOnly,
}

impl View for MatchKind {
    type V = KindView;

    open spec fn view(&self) -> KindView {
        match self {
            MatchKind::Replace(s) => KindView::Replace(s@),
            MatchKind::DeleteLine => KindView::DeleteLine,
            MatchKind::DeleteBlock => KindView::DeleteBlock,
            MatchKind::FlagOnly => KindView::FlagOnly,
        }
    }
}

impl MatchKind {
    /// The variant name of the kind.
    pub fn name(&self) -> (r: &'static str)
        ensures
            r@ == (match self {
                MatchKind::Replace(_) => "Replace"@,
                MatchKind::DeleteLine => "DeleteLine"@,
                MatchKind::DeleteBlock => "DeleteBlock"@,
                MatchKind::FlagOnly => "FlagOnly"@,
            }),
    {
        match self {
            MatchKind::Replace(_) => "Replace",
            MatchKind::DeleteLine => "DeleteLine",
            MatchKind::DeleteBlock => "DeleteBlock",
            MatchKind::FlagOnly => "FlagOnly",
        }
    }

    /// A copy of the kind.
    pub fn duplicate(&self) -> (r: MatchKind)
        ensures
            r@ == self@,
    {
        match self {
            MatchKind::Replace(s) => MatchKind::Replace(s.clone()),
            MatchKind::DeleteLine => MatchKind::DeleteLine,
            MatchKind::DeleteBlock => MatchKind::DeleteBlock,
            MatchKind::FlagOnly => MatchKind::FlagOnly,
        }
    }
}

/// Whether a rule applies to all files, prose-only, or code-only.
#[derive(Debug, Clone, Copy, PartialEq, Eq, Structural)]
pub enum FileTypeFilter {
    All,
    ProseOnly,
    CodeOnly,
}

/// A single detected pattern match.
#[derive(Debug)]
pub struct Match {
    /// Stable rule identifier (e.g., "em-dash", "trivial-comment").
    pub rule_id: String,
    /// Category: set by the rule, never inferred.
    pub category: Category,
    /// Severity level.
    pub severity: Severity,
    /// Confidence in ten-thousandths (10000 is certainty).
    pub confidence: u32,
    /// Byte range in the original file content.
    pub byte_range: Range<usize>,
    /// 1-indexed line number.
    pub line: usize,
    /// 1-indexed column (char count).
    pub col: usize,
    /// The matched text.
    pub original: String,
    /// Replacement text (empty string = delete span only).
    pub suggestion: String,
    /// What kind of fix to apply.
    pub kind: MatchKind,
    /// Human-readable explanation.
    pub description: String,
}

/// The mathematical value of a [`Match`].
pub struct MatchView {
    pub rule_id: Seq<char>,
    pub category: Category,
    pub severity: Severity,
    pub confidence: u32,
    pub start: int,
    pub end: int,
    pub line: int,
    pub col: int,
    pub original: Seq<char>,
    pub suggestion: Seq<char>,
    pub kind: KindView,
    pub description: Seq<char>,
}

impl View for Match {
    type V = MatchView;

    open spec fn view(&self) -> MatchView {
        MatchView {
            rule_id: self.rule_id@,
            category: self.category,
            severity: self.severity,
            confidence: self.confidence,
            start: self.byte_range.start as int,
            end: self.byte_range.end as int,
            line: self.line as int,
            col: self.col as int,
            original: self.original@,
            suggestion: self.suggestion@,
            kind: self.kind@,
            description: self.description@,
        }
    }
}

/// The views of a sequence of matches.
pub open spec fn views(ms: Seq<Match>) -> Seq<MatchView> {
    Seq::new(ms.len(), |k: int| ms[k]@)
}

impl Match {
    /// A copy of the match.
    pub fn duplicate(&self) -> (r: Match)
        ensures
            r@ == self@,
    {
        Match {
            rule_id: self.rule_id.clone(),
            category: self.category,
            severity: self.severity,
            confidence: self.confidence,
            byte_range: Range { start: self.byte_range.start, end: self.byte_range.end },
            line: self.line,
            col: self.col,
            original: self.original.clone(),
            suggestion: self.suggestion.clone(),
            kind: self.kind.duplicate(),
            description: self.description.clone(),
        }
    }
}

/// What a rule looks for and what its fix does, for the rule listing.
pub struct RuleExplanation {
    /// The patterns the rule looks for.
    pub pattern_summary: String,
    /// What the fix does.
    pub fix_behavior: String,
    /// Confidence in ten-thousandths.
    pub confidence: u32,
    /// A text the rule matches.
    pub example_input: String,
    /// That text after the fix.
    pub example_output: String,
}

/// The mathematical value of a [`RuleExplanation`].
pub struct ExplanationView {
    pub pattern_summary: Seq<char>,
    pub fix_behavior: Seq<char>,
    pub confidence: u32,
    pub example_input: Seq<char>,
    pub example_output: Seq<char>,
}

impl View for RuleExplanation {
    type V = ExplanationView;

    open spec fn view(&self) -> ExplanationView {
        ExplanationView {
            pattern_summary: self.pattern_summary@,
            fix_behavior: self.fix_behavior@,
            confidence: self.confidence,
            example_input: self.example_input@,
            example_output: self.example_output@,
        }
    }
}

/// A span within a file (e.g., a comment or docstring).
#[derive(Debug, Clone, Copy, PartialEq, Eq, Structural)]
pub struct Span {
    pub start: usize,
    pub end: usize,
}

impl Span {
    /// The span covers the whole range.
    pub fn contains_range(&self, range: &Range<usize>) -> (r: bool)
        ensures
            r == (range.start >= self.start && range.end <= self.end),
    {
        range.start >= self.start && range.end <= self.end
    }
}

/// Profile determines which rule categories are active.
#[derive(Debug, Clone, Copy, PartialEq, Eq, Structural)]
pub enum Profile {
    Conservative,
    Prose,
    Code,
    Aggressive,
    RustPack,
    PythonPack,
}

impl Profile {
    /// The categories a profile lets through.
    pub open spec fn spec_allows(self, category: Category) -> bool {
        match self {
            Profile::Conservative => category == Category::Typographic || category
                == Category::Symbol || category == Category::Custom,
            Profile::Prose => category == Category::Typographic || category == Category::Symbol
                || category == Category::Prose || category == Category::Custom,
            Profile::Code => category == Category::Typographic || category == Category::Symbol
                || category == Category::Code || category == Category::Custom,
            Profile::Aggressive => category != Category::PackSpecific,
            Profile::RustPack | Profile::PythonPack => category == Category::Typographic
                || category == Category::Symbol || category == Category::Code || category
                == Category::Custom || category == Category::PackSpecific,
        }
    }

    /// Returns true if the given category is active under this profile.
    pub fn allows(&self, category: Category) -> (r: bool)
        ensures
            r == self.spec_allows(category),
    {
        match self {
            Profile::Conservative => category == Category::Typographic || category
                == Category::Symbol || category == Category::Custom,
            Profile::Prose => category == Category::Typographic || category == Category::Symbol
                || category == Category::Prose || category == Category::Custom,
            Profile::Code => category == Category::Typographic || category == Category::Symbol
                || category == Category::Code || category == Category::Custom,
            Profile::Aggressive => category != Category::PackSpecific,
            Profile::RustPack | Profile::PythonPack => category == Category::Typographic
                || category == Category::Symbol || category == Category::Code || category
                == Category::Custom || category == Category::PackSpecific,
        }
    }

    /// The lowercase name of the profile.
    pub fn name(&self) -> (r: &'static str)
        ensures
            r@ == self.spec_name(),
    {
        match self {
            Profile::Conservative => "conservative",
            Profile::Prose => "prose",
            Profile::Code => "code",
            Profile::Aggressive => "aggressive",
            Profile::RustPack => "rust-pack",
            Profile::PythonPack => "python-pack",
        }
    }

    /// The lowercase name of the profile.
    pub open spec fn spec_name(self) -> Seq<char> {
        match self {
            Profile::Conservative => "conservative"@,
            Profile::Prose => "prose"@,
            Profile::Code => "code"@,
            Profile::Aggressive => "aggressive"@,
            Profile::RustPack => "rust-pack"@,
            Profile::PythonPack => "python-pack"@,
        }
    }
}

/// The profile whose lowercase name is `name`, if any.
pub open spec fn profile_named(name: Seq<char>) -> Option<Profile> {
    if name == "conservative"@ {
        Some(Profile::Conservative)
    } else if name == "prose"@ {
        Some(Profile::Prose)
    } else if name == "code"@ {
        Some(Profile::Code)
    } else if name == "aggressive"@ {
        Some(Profile::Aggressive)
    } else if name == "rust-pack"@ {
        Some(Profile::RustPack)
    } else if name == "python-pack"@ {
        Some(Profile::PythonPack)
    } else {
        None
    }
}

impl Profile {
    /// The profile a name denotes, in any case.
    pub fn from_name(s: &str) -> (r: Option<Profile>)
        ensures
            r == profile_named(lowercase_text(s@)),
    {
        let lower = to_lowercase(s);
        let l = lower.as_str();
        if str_eq(l, "conservative") {
            Some(Profile::Conservative)
        } else if str_eq(l, "prose") {
            Some(Profile::Prose)
        } else if str_eq(l, "code") {
            Some(Profile::Code)
        } else if str_eq(l, "aggressive") {
            Some(Profile::Aggressive)
        } else if str_eq(l, "rust-pack") {
            Some(Profile::RustPack)
        } else if str_eq(l, "python-pack") {
            Some(Profile::PythonPack)
        } else {
            None
        }
    }
}

impl core::str::FromStr for Profile {
    type Err = String;

    /// The profile a name denotes, in any case; an unknown name is an error
    /// that names it.
    fn from_str(s: &str) -> (r: Result<Profile, String>)
        ensures
            match r {
                Ok(p) => profile_named(lowercase_text(s@)) == Some(p),
                Err(m) => profile_named(lowercase_text(s@)) is None && m@ == "unknown profile: "@ + s@,
            },
    {
        match Profile::from_name(s) {
            Some(p) => Ok(p),
            None => {
                let mut message = String::new();
                push_str(&mut message, "unknown profile: ");
                push_str(&mut message, s);
                proof {
                    reveal_strlit("");
                    assert(""@ + "unknown profile: "@ =~= "unknown profile: "@);
                }
                Err(message)
            },
        }
    }
}

/// Every profile lets the typographic, symbol and custom categories through;
/// the aggressive profile lets everything through but the language packs,
/// whose rules only the rust-pack and python-pack profiles let through.
pub proof fn lemma_profile_baseline(p: Profile, c: Category)
    ensures
        (c == Category::Typographic || c == Category::Symbol || c == Category::Custom)
            ==> p.spec_allows(c),
        c != Category::PackSpecific ==> Profile::Aggressive.spec_allows(c),
        Profile::Conservative.spec_allows(c) ==> p.spec_allows(c),
        c == Category::PackSpecific ==> (p.spec_allows(c) <==> (p == Profile::RustPack || p
            == Profile::PythonPack)),
{
}

/// A category is active under a base profile stacked with extra profiles
/// when any of them lets it through.
pub open spec fn spec_stack_allows(base: Profile, extras: Seq<Profile>, c: Category) -> bool {
    base.spec_allows(c) || exists|k: int| 0 <= k < extras.len() && extras[k].spec_allows(c)
}

/// Whether a category is active under a base profile with extra profiles
/// stacked on top.
pub fn stack_allows(base: Profile, extras: &Vec<Profile>, c: Category) -> (r: bool)
    ensures
        r == spec_stack_allows(base, extras@, c),
{
    if base.allows(c) {
        return true;
    }
    let mut i: usize = 0;
    while i < extras.len()
        invariant
            i <= extras@.len(),
            forall|k: int| 0 <= k < i ==> !extras@[k].spec_allows(c),
        decreases extras@.len() - i,
    {
        if extras[i].allows(c) {
            return true;
        }
        i = i + 1;
    }
    false
}

} // verus!
