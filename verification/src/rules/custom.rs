//! Custom rules: phrases from the configuration, and rules read from
//! `.deslop-rules` files.

use vstd::prelude::*;
use vstd::string::*;
use vstd::utf8::*;
use core::ops::Range;
use crate::bindings::{
    build_glob_set, builder_add, builder_globs, glob_accepts, glob_error_text, glob_set_error_text,
    new_glob_builder, set_globs, set_is_match,
    groups_in_text, regex_captures_first,
    regex_error, regex_error_text, regex_escape, regex_escaped, regex_find, regex_find_spans,
    regex_first_captures, spans_in_text,
};
use crate::text::{
    boundary, char_offsets, char_slice, chars_of, lemma_encode_len, line_col_at, line_col_from_offset, push_str, str_eq,
    replace_all, replace_all_of, substring, text_of, trim_str, trimmed,
};
use super::pattern::{pattern_views, push_pattern_matches, template, Template, TemplateView};
use super::{views, Category, FileTypeFilter, KindView, Match, MatchKind, MatchView, Severity, Span};

verus! {

// ---------------------------------------------------------------------------
// Edit distance and small text helpers
// ---------------------------------------------------------------------------

/// The smallest of three numbers.
pub open spec fn min3(x: nat, y: nat, z: nat) -> nat {
    if x <= y && x <= z {
        x
    } else if y <= z {
        y
    } else {
        z
    }
}

/// The Levenshtein distance between the first `i` bytes of `a` and the
/// first `j` bytes of `b`: the fewest insertions, deletions and
/// substitutions that turn one into the other.
pub open spec fn lev(a: Seq<u8>, b: Seq<u8>, i: nat, j: nat) -> nat
    decreases i + j,
{
    if i == 0 {
        j
    } else if j == 0 {
        i
    } else {
        min3(
            lev(a, b, (i - 1) as nat, j) + 1,
            lev(a, b, i, (j - 1) as nat) + 1,
            lev(a, b, (i - 1) as nat, (j - 1) as nat) + if a[i - 1] == b[j - 1] {
                0nat
            } else {
                1nat
            },
        )
    }
}

/// The Levenshtein distance between two byte strings.
pub open spec fn edit_distance(a: Seq<u8>, b: Seq<u8>) -> nat {
    lev(a, b, a.len(), b.len())
}

/// The distance is at most the longer length.
pub proof fn lemma_lev_bound(a: Seq<u8>, b: Seq<u8>, i: nat, j: nat)
    ensures
        lev(a, b, i, j) <= if i >= j {
            i
        } else {
            j
        },
    decreases i + j,
{
    if i > 0 && j > 0 {
        lemma_lev_bound(a, b, (i - 1) as nat, (j - 1) as nat);
    }
}

/// A byte string is at distance zero from itself.
pub proof fn lemma_edit_distance_identity(a: Seq<u8>)
    ensures
        edit_distance(a, a) == 0,
{
    lemma_lev_diagonal(a, a.len());
}

proof fn lemma_lev_diagonal(a: Seq<u8>, i: nat)
    ensures
        lev(a, a, i, i) == 0,
    decreases i,
{
    if i > 0 {
        lemma_lev_diagonal(a, (i - 1) as nat);
    }
}

/// The distance does not depend on the order of its arguments.
pub proof fn lemma_edit_distance_symmetric(a: Seq<u8>, b: Seq<u8>)
    ensures
        edit_distance(a, b) == edit_distance(b, a),
{
    lemma_lev_symmetric(a, b, a.len(), b.len());
}

proof fn lemma_lev_symmetric(a: Seq<u8>, b: Seq<u8>, i: nat, j: nat)
    ensures
        lev(a, b, i, j) == lev(b, a, j, i),
    decreases i + j,
{
    if i > 0 && j > 0 {
        lemma_lev_symmetric(a, b, (i - 1) as nat, j);
        lemma_lev_symmetric(a, b, i, (j - 1) as nat);
        lemma_lev_symmetric(a, b, (i - 1) as nat, (j - 1) as nat);
    }
}

/// Two byte strings at distance zero are equal.
pub proof fn lemma_edit_distance_zero(a: Seq<u8>, b: Seq<u8>)
    requires
        edit_distance(a, b) == 0,
    ensures
        a == b,
{
    lemma_lev_zero(a, b, a.len(), b.len());
    assert(a.take(a.len() as int) =~= a);
    assert(b.take(b.len() as int) =~= b);
}

proof fn lemma_lev_zero(a: Seq<u8>, b: Seq<u8>, i: nat, j: nat)
    requires
        i <= a.len(),
        j <= b.len(),
        lev(a, b, i, j) == 0,
    ensures
        i == j,
        a.take(i as int) == b.take(j as int),
    decreases i + j,
{
    if i > 0 && j > 0 {
        lemma_lev_zero(a, b, (i - 1) as nat, (j - 1) as nat);
        assert(a.take(i as int) =~= a.take(i - 1).push(a[i - 1]));
        assert(b.take(j as int) =~= b.take(j - 1).push(b[j - 1]));
    } else {
        assert(a.take(0) =~= b.take(0));
    }
}

/// The distance is at least the difference of the lengths.
proof fn lemma_lev_lower(a: Seq<u8>, b: Seq<u8>, i: nat, j: nat)
    ensures
        lev(a, b, i, j) >= i - j,
        lev(a, b, i, j) >= j - i,
    decreases i + j,
{
    if i > 0 && j > 0 {
        lemma_lev_lower(a, b, (i - 1) as nat, j);
        lemma_lev_lower(a, b, i, (j - 1) as nat);
        lemma_lev_lower(a, b, (i - 1) as nat, (j - 1) as nat);
    }
}

/// The distance obeys the triangle inequality: going through a third
/// string is never shorter.
pub proof fn lemma_edit_distance_triangle(a: Seq<u8>, b: Seq<u8>, c: Seq<u8>)
    ensures
        edit_distance(a, c) <= edit_distance(a, b) + edit_distance(b, c),
{
    lemma_lev_triangle(a, b, c, a.len(), b.len(), c.len());
}

proof fn lemma_lev_triangle(a: Seq<u8>, b: Seq<u8>, c: Seq<u8>, i: nat, j: nat, k: nat)
    ensures
        lev(a, c, i, k) <= lev(a, b, i, j) + lev(b, c, j, k),
    decreases i + j + k,
{
    if i == 0 {
        lemma_lev_lower(b, c, j, k);
    } else if k == 0 {
        lemma_lev_lower(a, b, i, j);
    } else if j == 0 {
        lemma_lev_bound(a, c, i, k);
    } else {
        let i1 = (i - 1) as nat;
        let j1 = (j - 1) as nat;
        let k1 = (k - 1) as nat;
        lemma_lev_triangle(a, b, c, i1, j, k);
        lemma_lev_triangle(a, b, c, i, j, k1);
        lemma_lev_triangle(a, b, c, i, j1, k);
        lemma_lev_triangle(a, b, c, i, j1, k1);
        lemma_lev_triangle(a, b, c, i1, j1, k);
        lemma_lev_triangle(a, b, c, i1, j1, k1);
    }
}

/// One more, saturating at the largest value.
fn succ(x: usize) -> (r: usize)
    ensures
        r == (if x == usize::MAX {
            x as int
        } else {
            x + 1
        }),
{
    if x == usize::MAX {
        x
    } else {
        x + 1
    }
}

/// Levenshtein distance between the bytes of two strings, for typo
/// suggestions.
pub fn levenshtein(a: &str, b: &str) -> (r: usize)
    ensures
        r == edit_distance(a.spec_bytes(), b.spec_bytes()),
{
    let ab = a.as_bytes();
    let bb = b.as_bytes();
    let n = ab.len();
    let m = bb.len();
    let ghost sa = ab@;
    let ghost sb = bb@;
    let mut prev: Vec<usize> = Vec::new();
    let mut j: usize = 0;
    while j < m
        invariant
            m == sb.len(),
            j <= m,
            prev@.len() == j,
            forall|q: int| 0 <= q < j ==> prev@[q] == lev(sa, sb, 0, q as nat),
        decreases m - j,
    {
        prev.push(j);
        j = j + 1;
    }
    prev.push(m);
    let mut i: usize = 0;
    while i < n
        invariant
            n == sa.len(),
            m == sb.len(),
            sa == ab@,
            sb == bb@,
            i <= n,
            prev@.len() == m + 1,
            forall|q: int| 0 <= q <= m ==> prev@[q] == lev(sa, sb, i as nat, q as nat),
        decreases n - i,
    {
        let mut curr: Vec<usize> = Vec::new();
        curr.push(i + 1);
        let mut j: usize = 0;
        while j < m
            invariant
                n == sa.len(),
                m == sb.len(),
                sa == ab@,
                sb == bb@,
                i < n,
                j <= m,
                prev@.len() == m + 1,
                curr@.len() == j + 1,
                forall|q: int| 0 <= q <= m ==> prev@[q] == lev(sa, sb, i as nat, q as nat),
                forall|q: int| 0 <= q <= j ==> curr@[q] == lev(sa, sb, (i + 1) as nat, q as nat),
            decreases m - j,
        {
            proof {
                lemma_lev_bound(sa, sb, i as nat, j as nat);
                lemma_lev_bound(sa, sb, (i + 1) as nat, (j + 1) as nat);
            }
            let cost: usize = if ab[i] == bb[j] {
                0
            } else {
                1
            };
            let x = succ(prev[j + 1]);
            let y = succ(curr[j]);
            let z = prev[j] + cost;
            let v = if x <= y && x <= z {
                x
            } else if y <= z {
                y
            } else {
                z
            };
            assert(v == lev(sa, sb, (i + 1) as nat, (j + 1) as nat));
            curr.push(v);
            j = j + 1;
        }
        prev = curr;
        i = i + 1;
    }
    prev[m]
}

/// The field names a rule block may hold.
pub open spec fn known_fields() -> Seq<Seq<char>> {
    seq!["match"@, "fix"@, "message"@, "confidence"@, "files"@, "severity"@]
}

/// The closest of the first `k` known fields within distance 2 of `u`, with
/// its distance; on a tie, the earlier field.
pub open spec fn best_field(u: Seq<u8>, k: int) -> Option<(int, nat)>
    decreases k,
{
    if k <= 0 {
        None
    } else {
        let prev = best_field(u, k - 1);
        let d = edit_distance(u, encode_utf8(known_fields()[k - 1]));
        let closer = match prev {
            Some((_, pd)) => d < pd,
            None => true,
        };
        if d <= 2 && closer {
            Some((k - 1, d))
        } else {
            prev
        }
    }
}

/// The known field closest to `u` within distance 2, if any.
pub open spec fn spec_suggest_field(u: Seq<char>) -> Option<Seq<char>> {
    match best_field(encode_utf8(u), 6) {
        Some((f, _)) => Some(known_fields()[f]),
        None => None,
    }
}

/// Suggest the closest known field name if within edit distance 2.
pub fn suggest_field(unknown: &str) -> (r: Option<String>)
    ensures
        match r {
            Some(s) => spec_suggest_field(unknown@) == Some(s@),
            None => spec_suggest_field(unknown@) is None,
        },
{
    let fields: Vec<&str> = vec!["match", "fix", "message", "confidence", "files", "severity"];
    assert(fields@.len() == 6);
    proof {
        reveal_strlit("match");
        reveal_strlit("fix");
        reveal_strlit("message");
        reveal_strlit("confidence");
        reveal_strlit("files");
        reveal_strlit("severity");
        assert forall|q: int| 0 <= q < 6 implies #[trigger] fields@[q].spec_bytes().len() <= 40 by {
            lemma_encode_len(fields@[q]@);
        }
    }
    let mut best: Option<(usize, usize)> = None;
    let mut k: usize = 0;
    while k < fields.len()
        invariant
            fields@.len() == 6,
            forall|q: int| 0 <= q < 6 ==> #[trigger] fields@[q]@ == known_fields()[q],
            forall|q: int| 0 <= q < 6 ==> #[trigger] fields@[q].spec_bytes().len() <= 40,
            k <= 6,
            best matches Some((f, _)) ==> f < k,
            match best {
                Some((f, d)) => best_field(unknown.spec_bytes(), k as int) == Some((f as int, d as nat)),
                None => best_field(unknown.spec_bytes(), k as int) is None,
            },
        decreases 6 - k,
    {
        let field: &str = fields[k];
        assert(field.spec_bytes().len() <= 40);
        proof {
            assert(fields@[k as int]@ == known_fields()[k as int]);
            assert(encode_utf8(field@) == field.spec_bytes());
        }
        let dist = levenshtein(unknown, field);
        let better = match best {
            None => dist <= 2,
            Some((_, bd)) => dist <= 2 && dist < bd,
        };
        if better {
            best = Some((k, dist));
        }
        k = k + 1;
    }
    match best {
        Some((f, _)) => {
            assert(fields@[f as int]@ == known_fields()[f as int]);
            Some(fields[f].to_owned())
        },
        None => None,
    }
}

/// A character that marks a pattern as a regular expression.
pub open spec fn is_regex_meta(c: char) -> bool {
    c == '|' || c == '(' || c == '[' || c == '*' || c == '+' || c == '?' || c == '^' || c == '$'
        || c == '.'
}

/// Check if a pattern string contains regex metacharacters.
pub fn is_regex_pattern(pattern: &str) -> (r: bool)
    ensures
        r == exists|k: int| 0 <= k < pattern@.len() && is_regex_meta(#[trigger] pattern@[k]),
{
    let cs = chars_of(pattern);
    let mut k: usize = 0;
    while k < cs.len()
        invariant
            cs@ == pattern@,
            k <= cs@.len(),
            forall|q: int| 0 <= q < k ==> !is_regex_meta(#[trigger] cs@[q]),
        decreases cs@.len() - k,
    {
        let c = cs[k];
        if c == '|' || c == '(' || c == '[' || c == '*' || c == '+' || c == '?' || c == '^' || c
            == '$' || c == '.' {
            assert(is_regex_meta(pattern@[k as int]));
            return true;
        }
        k = k + 1;
    }
    false
}

/// The trimmed text without one pair of surrounding double or single
/// quotes; a lone quote is no pair, and stays.
pub open spec fn spec_strip_quotes(s: Seq<char>) -> Seq<char> {
    let t = trimmed(s);
    if t.len() >= 2 && ((t[0] == '"' && t.last() == '"') || (t[0] == '\'' && t.last() == '\'')) {
        t.subrange(1, t.len() - 1)
    } else {
        t
    }
}

/// Strip surrounding quotes from a string value.
pub fn strip_quotes(s: &str) -> (r: &str)
    ensures
        r@ == spec_strip_quotes(s@),
{
    let t = trim_str(s);
    let cs = chars_of(t);
    let offs = char_offsets(t);
    let n = cs.len();
    if n >= 2 && ((cs[0] == '"' && cs[n - 1] == '"') || (cs[0] == '\'' && cs[n - 1] == '\'')) {
        char_slice(t, &offs, 1, n - 1)
    } else {
        t
    }
}

// ---------------------------------------------------------------------------
// Custom phrases from the configuration
// ---------------------------------------------------------------------------

/// The alternative of the phrase pattern for one phrase: the phrase, escaped,
/// as a case-insensitive whole word.
pub open spec fn phrase_alternative(p: Seq<char>) -> Seq<char> {
    r"(?i)\b"@ + regex_escaped(p) + r"\b"@
}

/// The alternatives for the first `n` phrases, joined by `|`.
pub open spec fn phrase_pattern(ps: Seq<Seq<char>>, n: int) -> Seq<char>
    decreases n,
{
    if n <= 0 {
        seq![]
    } else if n == 1 {
        phrase_alternative(ps[0])
    } else {
        phrase_pattern(ps, n - 1) + seq!['|'] + phrase_alternative(ps[n - 1])
    }
}

/// The texts of a list of strings.
pub open spec fn texts(v: Seq<String>) -> Seq<Seq<char>> {
    Seq::new(v.len(), |k: int| v[k]@)
}

/// The texts of a list with one more string end with its text.
pub proof fn lemma_texts_push(v: Seq<String>, x: String)
    ensures
        texts(v.push(x)) == texts(v).push(x@),
{
    assert(texts(v.push(x)) =~= texts(v).push(x@));
}

/// Whether the name is on the list.
pub fn listed(names: &[String], id: &str) -> (r: bool)
    ensures
        r == texts(names@).contains(id@),
{
    let mut k: usize = 0;
    while k < names.len()
        invariant
            k <= names@.len(),
            forall|q: int| 0 <= q < k ==> names@[q]@ != id@,
        decreases names@.len() - k,
    {
        if str_eq(names[k].as_str(), id) {
            assert(texts(names@)[k as int] == id@);
            return true;
        }
        k = k + 1;
    }
    assert forall|q: int| 0 <= q < texts(names@).len() implies texts(names@)[q] != id@ by {
        assert(texts(names@)[q] == names@[q]@);
    }
    false
}


/// The template of a custom phrase match: deleted.
pub open spec fn phrase_template() -> TemplateView {
    TemplateView {
        rule_id: "custom-phrases"@,
        category: Category::Custom,
        severity: Severity::Warn,
        confidence: 7500,
        kind: KindView::Replace(Seq::empty()),
        suggestion: Seq::empty(),
        description: "Custom phrase match from config"@,
    }
}

/// Phrases from the configuration, matched as whole words in any case and
/// deleted.
pub struct CustomPhraseRule {
    pattern: String,
}

impl CustomPhraseRule {
    /// The pattern the rule matches.
    pub closed spec fn spec_pattern(&self) -> Seq<char> {
        self.pattern@
    }

    /// A rule for the given phrases; an error when there is none or when the
    /// joined pattern does not compile.
    pub fn new(phrases: &[String]) -> (r: Result<Self, String>)
        ensures
            phrases@.len() == 0 ==> (r matches Err(e) && e@ == "no custom phrases provided"@),
            phrases@.len() > 0 ==> match r {
                Ok(rule) => rule.spec_pattern() == phrase_pattern(texts(phrases@), phrases@.len() as int)
                    && regex_error_text(rule.spec_pattern()) is None,
                Err(e) => regex_error_text(phrase_pattern(texts(phrases@), phrases@.len() as int)) is Some
                    && e@ == "failed to compile custom phrase regex"@,
            },
    {
        if phrases.len() == 0 {
            return Err("no custom phrases provided".to_owned());
        }
        let ghost ps = texts(phrases@);
        let mut pattern = String::new();
        let mut i: usize = 0;
        while i < phrases.len()
            invariant
                ps == texts(phrases@),
                phrases@.len() > 0,
                i <= phrases@.len(),
                pattern@ == phrase_pattern(ps, i as int),
            decreases phrases@.len() - i,
        {
            if i > 0 {
                proof {
                    reveal_strlit("|");
                }
                push_str(&mut pattern, "|");
            } else {
                assert(pattern@ =~= Seq::<char>::empty());
            }
            let escaped = regex_escape(phrases[i].as_str());
            push_str(&mut pattern, r"(?i)\b");
            push_str(&mut pattern, escaped.as_str());
            push_str(&mut pattern, r"\b");
            proof {
                assert(ps[i as int] == phrases@[i as int]@);
                if i == 0 {
                    assert(pattern@ =~= phrase_pattern(ps, 1));
                } else {
                    assert(pattern@ =~= phrase_pattern(ps, i + 1));
                }
            }
            i = i + 1;
        }
        match regex_error(pattern.as_str()) {
            Some(_) => Err("failed to compile custom phrase regex".to_owned()),
            None => Ok(CustomPhraseRule { pattern }),
        }
    }

    /// Every match of the phrase pattern, to be deleted.
    pub open spec fn spec_check(&self, content: Seq<char>) -> Seq<MatchView> {
        pattern_views(content, self.spec_pattern(), phrase_template())
    }

    /// The rule's identifier.
    pub fn id(&self) -> (r: &'static str)
        ensures
            r@ == "custom-phrases"@,
    {
        "custom-phrases"
    }

    /// The rule's category.
    pub fn category(&self) -> (r: Category)
        ensures
            r == Category::Custom,
    {
        Category::Custom
    }

    /// The file types the rule applies to.
    pub fn file_type_filter(&self) -> (r: FileTypeFilter)
        ensures
            r == FileTypeFilter::All,
    {
        FileTypeFilter::All
    }

    /// One deletion per phrase found.
    pub fn check(&self, content: &str, _comment_spans: Option<&[Span]>) -> (r: Vec<Match>)
        requires
            content.spec_bytes().len() < usize::MAX,
        ensures
            views(r@) == self.spec_check(content@),
    {
        proof {
            reveal_strlit("");
            assert(""@ =~= Seq::<char>::empty());
        }
        let t = template(
            "custom-phrases",
            Category::Custom,
            Severity::Warn,
            7500,
            MatchKind::Replace(String::new()),
            "",
            "Custom phrase match from config",
        );
        let mut out: Vec<Match> = Vec::new();
        assert(views(out@) =~= Seq::<MatchView>::empty());
        push_pattern_matches(&mut out, content, self.pattern.as_str(), &t);
        assert(views(out@) =~= self.spec_check(content@));
        out
    }
}

// ---------------------------------------------------------------------------
// Rules from `.deslop-rules` files
// ---------------------------------------------------------------------------

/// What fix action to apply for a custom file rule.
#[derive(Debug, Clone)]
pub enum FixAction {
    Delete,
    DeleteLine,
    Replace(String),
    Flag,
}

/// The mathematical value of a [`FixAction`].
pub enum FixView {
    Delete,
    DeleteLine,
    Replace(Seq<char>),
    Flag,
}

impl View for FixAction {
    type V = FixView;

    open spec fn view(&self) -> FixView {
        match self {
            FixAction::Delete => FixView::Delete,
            FixAction::DeleteLine => FixView::DeleteLine,
            FixAction::Replace(s) => FixView::Replace(s@),
            FixAction::Flag => FixView::Flag,
        }
    }
}

impl FixAction {
    /// A copy of the action.
    pub fn duplicate(&self) -> (r: FixAction)
        ensures
            r@ == self@,
    {
        match self {
            FixAction::Delete => FixAction::Delete,
            FixAction::DeleteLine => FixAction::DeleteLine,
            FixAction::Replace(s) => FixAction::Replace(s.clone()),
            FixAction::Flag => FixAction::Flag,
        }
    }
}

/// The text of an optional string.
pub open spec fn opt_text(o: Option<String>) -> Option<Seq<char>> {
    match o {
        Some(s) => Some(s@),
        None => None,
    }
}

/// A single parsed rule from a .deslop-rules file.
#[derive(Debug)]
pub struct ParsedRule {
    pub name: String,
    pub pattern: String,
    pub is_regex: bool,
    pub fix: FixAction,
    pub message: Option<String>,
    /// Confidence in ten-thousandths.
    pub confidence: u32,
    /// The glob patterns of the files the rule applies to (all files when
    /// empty); each compiles.
    pub file_globs: Vec<String>,
    pub severity: Severity,
    pub source_line: usize,
}

/// The mathematical value of a [`ParsedRule`].
pub struct ParsedView {
    pub name: Seq<char>,
    pub pattern: Seq<char>,
    pub is_regex: bool,
    pub fix: FixView,
    pub message: Option<Seq<char>>,
    pub confidence: u32,
    pub file_globs: Seq<Seq<char>>,
    pub severity: Severity,
    pub source_line: int,
}

impl View for ParsedRule {
    type V = ParsedView;

    open spec fn view(&self) -> ParsedView {
        ParsedView {
            name: self.name@,
            pattern: self.pattern@,
            is_regex: self.is_regex,
            fix: self.fix@,
            message: opt_text(self.message),
            confidence: self.confidence,
            file_globs: texts(self.file_globs@),
            severity: self.severity,
            source_line: self.source_line as int,
        }
    }
}

/// A copy of a list of strings.
fn copy_strings(v: &Vec<String>) -> (r: Vec<String>)
    ensures
        texts(r@) == texts(v@),
{
    let mut out: Vec<String> = Vec::new();
    let mut i: usize = 0;
    while i < v.len()
        invariant
            i <= v@.len(),
            out@.len() == i,
            forall|k: int| 0 <= k < i ==> #[trigger] out@[k]@ == v@[k]@,
        decreases v@.len() - i,
    {
        let c = v[i].clone();
        out.push(c);
        i = i + 1;
    }
    assert(texts(out@) =~= texts(v@));
    out
}

impl ParsedRule {
    /// A copy of the rule.
    pub fn duplicate(&self) -> (r: ParsedRule)
        ensures
            r@ == self@,
    {
        ParsedRule {
            name: self.name.clone(),
            pattern: self.pattern.clone(),
            is_regex: self.is_regex,
            fix: self.fix.duplicate(),
            message: match &self.message {
                Some(m) => Some(m.clone()),
                None => None,
            },
            confidence: self.confidence,
            file_globs: copy_strings(&self.file_globs),
            severity: self.severity,
            source_line: self.source_line,
        }
    }
}

/// A disable directive from a .deslop-rules file.
#[derive(Debug, Clone)]
pub struct DisableDirective {
    pub rule_id: String,
}

/// A fully parsed .deslop-rules file.
#[derive(Debug)]
pub struct DeslopRulesFile {
    /// Where the file was read from, as displayed.
    pub path: String,
    pub rules: Vec<ParsedRule>,
    pub disables: Vec<DisableDirective>,
}

/// A validation error found during check-rules.
#[derive(Debug)]
pub struct ValidationError {
    pub line: usize,
    pub message: String,
}

/// The pattern a rule is compiled to: its regular expression, or its
/// literal text escaped and matched in any case.
pub open spec fn compiled_for(p: ParsedView) -> Seq<char> {
    if p.is_regex {
        p.pattern
    } else {
        "(?i)"@ + regex_escaped(p.pattern)
    }
}

/// The placeholder for capture group `i` in a replacement: `$` and the digit.
pub open spec fn placeholder(i: int) -> Seq<char> {
    seq!['$', (('0' as u32) + i) as char]
}

/// The replacement after `n` of the substitution steps, which handle the
/// groups 9, 8, ..., 1 in turn: the placeholder of each group that took part
/// in the match is replaced by the group's text.
pub open spec fn substitute(rep: Seq<char>, sb: Seq<u8>, groups: Seq<Option<(usize, usize)>>, n: int) -> Seq<
    char,
>
    decreases n,
{
    if n <= 0 {
        rep
    } else {
        let prev = substitute(rep, sb, groups, n - 1);
        let g = 10 - n;
        if g < groups.len() {
            match groups[g] {
                Some(r) => replace_all(prev, placeholder(g), text_of(sb, r.0 as int, r.1 as int)),
                None => prev,
            }
        } else {
            prev
        }
    }
}

/// The replacement a rule writes for its match starting at `s`: for a
/// regular expression, the placeholders `$1` to `$9` are filled from the
/// first match of the rule in the text from `s` on.
pub open spec fn expanded(p: ParsedView, rep: Seq<char>, b: Seq<u8>, s: int) -> Seq<char> {
    let sb = b.subrange(s, b.len() as int);
    if !p.is_regex {
        rep
    } else {
        match regex_first_captures(compiled_for(p), decode_utf8(sb)) {
            Some(Some(groups)) => substitute(rep, sb, groups, 9),
            _ => rep,
        }
    }
}

/// The kind and the suggestion of a rule's match starting at `s`.
pub open spec fn custom_fix(p: ParsedView, b: Seq<u8>, s: int) -> (KindView, Seq<char>) {
    match p.fix {
        FixView::Delete => (KindView::Replace(Seq::empty()), Seq::empty()),
        FixView::DeleteLine => (KindView::DeleteLine, Seq::empty()),
        FixView::Replace(rep) => (
            KindView::Replace(expanded(p, rep, b, s)),
            expanded(p, rep, b, s),
        ),
        FixView::Flag => (KindView::FlagOnly, Seq::empty()),
    }
}

/// The description of a rule's matches: its message, or a default one.
pub open spec fn rule_description(p: ParsedView) -> Seq<char> {
    match p.message {
        Some(m) => m,
        None => "Custom rule '"@ + p.name + "' matched"@,
    }
}

/// The match a rule reports for `[s, e)`.
pub open spec fn custom_view(p: ParsedView, b: Seq<u8>, s: int, e: int) -> MatchView {
    MatchView {
        rule_id: p.name,
        category: Category::Custom,
        severity: p.severity,
        confidence: p.confidence,
        start: s,
        end: e,
        line: line_col_at(b, s).0,
        col: line_col_at(b, s).1,
        original: text_of(b, s, e),
        suggestion: custom_fix(p, b, s).1,
        kind: custom_fix(p, b, s).0,
        description: rule_description(p),
    }
}

/// What goes wrong when a glob is made into a matcher of its own: the glob
/// does not compile, or the glob library cannot build its matcher; `None`
/// when the matcher is built.
pub open spec fn single_glob_error(glob: Seq<char>) -> Option<Seq<char>> {
    match glob_error_text(glob) {
        Some(e) => Some(e),
        None => glob_set_error_text(seq![glob]),
    }
}

/// The index of the first glob, from `k` on, that cannot be made into a
/// matcher, if any.
pub open spec fn first_unbuilt_glob(globs: Seq<Seq<char>>, k: int) -> Option<int>
    decreases globs.len() - k,
{
    if k < 0 || k >= globs.len() {
        None
    } else if single_glob_error(globs[k]) is Some {
        Some(k)
    } else {
        first_unbuilt_glob(globs, k + 1)
    }
}

/// Whether the glob compiles: `None`, or the glob library's message.
pub(crate) fn glob_error(glob: &str) -> (r: Option<String>)
    ensures
        match r {
            Some(e) => glob_error_text(glob@) == Some(e@),
            None => glob_error_text(glob@) is None,
        },
{
    let mut builder = new_glob_builder();
    builder_add(&mut builder, glob)
}

/// A glob made into a matcher of its own: the matcher, or what went wrong.
fn single_glob_matcher(glob: &str) -> (r: Result<globset::GlobSet, String>)
    ensures
        match r {
            Ok(m) => single_glob_error(glob@) is None && set_globs(m) == seq![glob@],
            Err(e) => single_glob_error(glob@) == Some(e@),
        },
{
    let mut builder = new_glob_builder();
    if let Some(e) = builder_add(&mut builder, glob) {
        return Err(e);
    }
    assert(builder_globs(builder) =~= seq![glob@]);
    build_glob_set(&builder)
}

/// A parsed rule, compiled.
pub struct CustomFileRule {
    parsed: ParsedRule,
    compiled_pattern: String,
    /// One matcher for each file glob.
    matchers: Vec<globset::GlobSet>,
}

/// The placeholder of group `i`, from 1 to 9.
fn placeholder_text(i: usize) -> (r: &'static str)
    requires
        1 <= i <= 9,
    ensures
        r@ == placeholder(i as int),
{
    proof {
        reveal_strlit("$1");
        reveal_strlit("$2");
        reveal_strlit("$3");
        reveal_strlit("$4");
        reveal_strlit("$5");
        reveal_strlit("$6");
        reveal_strlit("$7");
        reveal_strlit("$8");
        reveal_strlit("$9");
    }
    let r = if i == 1 {
        "$1"
    } else if i == 2 {
        "$2"
    } else if i == 3 {
        "$3"
    } else if i == 4 {
        "$4"
    } else if i == 5 {
        "$5"
    } else if i == 6 {
        "$6"
    } else if i == 7 {
        "$7"
    } else if i == 8 {
        "$8"
    } else {
        "$9"
    };
    assert(r@ =~= placeholder(i as int));
    r
}

impl CustomFileRule {
    /// The parsed rule.
    pub closed spec fn spec_parsed(&self) -> ParsedView {
        self.parsed@
    }

    /// The rule's pattern is the one compiled from its parsed rule, and it
    /// compiles.
    #[verifier::type_invariant]
    closed spec fn inv(self) -> bool {
        &&& self.compiled_pattern@ == compiled_for(self.parsed@)
        &&& regex_error_text(self.compiled_pattern@) is None
        &&& self.matchers@.len() == self.parsed@.file_globs.len()
        &&& forall|k: int|
            0 <= k < self.matchers@.len() ==> set_globs(#[trigger] self.matchers@[k]) == seq![
                self.parsed@.file_globs[k],
            ]
    }

    /// Compiles a parsed rule: its pattern as a regular expression, or its
    /// literal text escaped and matched in any case; then each of its file
    /// globs is built into a matcher.
    pub fn from_parsed(parsed: ParsedRule) -> (r: Result<Self, String>)
        ensures
            match r {
                Ok(rule) => {
                    &&& rule.spec_parsed() == parsed@
                    &&& regex_error_text(compiled_for(parsed@)) is None
                    &&& first_unbuilt_glob(parsed@.file_globs, 0) is None
                },
                Err(e) => if regex_error_text(compiled_for(parsed@)) is Some {
                    e@ == (if parsed.is_regex {
                        "invalid regex in rule '"@ + parsed.name@ + "': "@ + parsed.pattern@
                    } else {
                        "failed to compile literal pattern for rule '"@ + parsed.name@ + "'"@
                    })
                } else {
                    first_unbuilt_glob(parsed@.file_globs, 0) matches Some(k) && e@ == "invalid glob pattern in rule '"@
                        + parsed.name@ + "': "@ + single_glob_error(parsed@.file_globs[k])->0
                },
            },
    {
        let mut compiled = String::new();
        if parsed.is_regex {
            push_str(&mut compiled, parsed.pattern.as_str());
        } else {
            let escaped = regex_escape(parsed.pattern.as_str());
            push_str(&mut compiled, "(?i)");
            push_str(&mut compiled, escaped.as_str());
        }
        assert(compiled@ =~= compiled_for(parsed@));
        if regex_error(compiled.as_str()).is_some() {
            let mut msg = String::new();
            if parsed.is_regex {
                push_str(&mut msg, "invalid regex in rule '");
                push_str(&mut msg, parsed.name.as_str());
                push_str(&mut msg, "': ");
                push_str(&mut msg, parsed.pattern.as_str());
            } else {
                push_str(&mut msg, "failed to compile literal pattern for rule '");
                push_str(&mut msg, parsed.name.as_str());
                push_str(&mut msg, "'");
            }
            return Err(msg);
        }
        let ghost g = parsed@.file_globs;
        let mut matchers: Vec<globset::GlobSet> = Vec::new();
        let mut k: usize = 0;
        while k < parsed.file_globs.len()
            invariant
                g == parsed@.file_globs,
                g == texts(parsed.file_globs@),
                regex_error_text(compiled_for(parsed@)) is None,
                compiled@ == compiled_for(parsed@),
                k <= g.len(),
                first_unbuilt_glob(g, 0) == first_unbuilt_glob(g, k as int),
                matchers@.len() == k,
                forall|j: int| 0 <= j < k ==> set_globs(#[trigger] matchers@[j]) == seq![g[j]],
            decreases g.len() - k,
        {
            assert(g[k as int] == parsed.file_globs@[k as int]@);
            match single_glob_matcher(parsed.file_globs[k].as_str()) {
                Ok(m) => {
                    matchers.push(m);
                },
                Err(e) => {
                    assert(first_unbuilt_glob(g, k as int) == Some(k as int));
                    let mut msg = String::new();
                    push_str(&mut msg, "invalid glob pattern in rule '");
                    push_str(&mut msg, parsed.name.as_str());
                    push_str(&mut msg, "': ");
                    push_str(&mut msg, e.as_str());
                    return Err(msg);
                },
            }
            k = k + 1;
        }
        Ok(CustomFileRule { parsed, compiled_pattern: compiled, matchers })
    }

    /// Check if this rule's file globs match the given path: every path when
    /// the rule names no glob, else whether one of them matches it.
    pub fn matches_path(&self, path: &str) -> (r: bool)
        ensures
            r == (self.spec_parsed().file_globs.len() == 0 || exists|k: int|
                0 <= k < self.spec_parsed().file_globs.len() && glob_accepts(
                    #[trigger] self.spec_parsed().file_globs[k],
                    path@,
                )),
    {
        proof {
            use_type_invariant(self);
        }
        let ghost g = self.parsed@.file_globs;
        if self.matchers.len() == 0 {
            return true;
        }
        let mut k: usize = 0;
        while k < self.matchers.len()
            invariant
                g == self.parsed@.file_globs,
                self.matchers@.len() == g.len(),
                forall|j: int| 0 <= j < g.len() ==> set_globs(#[trigger] self.matchers@[j]) == seq![g[j]],
                k <= g.len(),
                forall|q: int| 0 <= q < k ==> !glob_accepts(#[trigger] g[q], path@),
            decreases g.len() - k,
        {
            let hit = set_is_match(&self.matchers[k], path);
            assert(set_globs(self.matchers@[k as int]) == seq![g[k as int]]);
            assert(seq![g[k as int]][0] == g[k as int]);
            if hit {
                return true;
            }
            k = k + 1;
        }
        false
    }

    /// The matches of the rule: one per match of its pattern.
    pub open spec fn spec_check(&self, content: Seq<char>) -> Seq<MatchView> {
        match regex_find_spans(compiled_for(self.spec_parsed()), content) {
            Some(v) => Seq::new(
                v.len(),
                |k: int|
                    custom_view(self.spec_parsed(), encode_utf8(content), v[k].0 as int, v[k].1 as int),
            ),
            None => seq![],
        }
    }

    /// The rule's identifier: its name.
    pub fn id(&self) -> (r: &str)
        ensures
            r@ == self.spec_parsed().name,
    {
        self.parsed.name.as_str()
    }

    /// The rule's category.
    pub fn category(&self) -> (r: Category)
        ensures
            r == Category::Custom,
    {
        Category::Custom
    }

    /// The file types the rule applies to.
    pub fn file_type_filter(&self) -> (r: FileTypeFilter)
        ensures
            r == FileTypeFilter::All,
    {
        FileTypeFilter::All
    }

    /// The replacement for a match of the rule starting at `s`.
    fn expand(&self, rep: &str, content: &str, s: usize) -> (r: String)
        requires
            content.spec_bytes().len() < usize::MAX,
            boundary(content.spec_bytes(), s as int),
            s <= content.spec_bytes().len(),
        ensures
            r@ == expanded(self.spec_parsed(), rep@, content.spec_bytes(), s as int),
    {
        proof {
            use_type_invariant(self);
        }
        if !self.parsed.is_regex {
            return rep.to_owned();
        }
        let ghost b = content.spec_bytes();
        let suffix = substring(content, s, content.len());
        proof {
            encode_utf8_decode_utf8(suffix@);
        }
        match regex_captures_first(self.compiled_pattern.as_str(), suffix) {
            Some(Some(groups)) => {
                let ghost sb = suffix.spec_bytes();
                let mut result = rep.to_owned();
                let mut n: usize = 0;
                while n < 9
                    invariant
                        n <= 9,
                        sb == suffix.spec_bytes(),
                        groups_in_text(sb, groups@),
                        result@ == substitute(rep@, sb, groups@, n as int),
                    decreases 9 - n,
                {
                    let g = 9 - n;
                    if g < groups.len() {
                        match groups[g] {
                            Some((gs, ge)) => {
                                assert(groups_in_text(sb, groups@));
                                assert(groups@[g as int] matches Some(r) ==> r.0 <= r.1);
                                let text = substring(suffix, gs, ge);
                                let ph = placeholder_text(g);
                                result = replace_all_of(result.as_str(), ph, text);
                            },
                            None => {},
                        }
                    }
                    n = n + 1;
                }
                result
            },
            _ => rep.to_owned(),
        }
    }

    /// One match per match of the rule's pattern.
    pub fn check(&self, content: &str, _comment_spans: Option<&[Span]>) -> (r: Vec<Match>)
        requires
            content.spec_bytes().len() < usize::MAX,
        ensures
            views(r@) == self.spec_check(content@),
    {
        proof {
            use_type_invariant(self);
        }
        let ghost b = content.spec_bytes();
        let ghost p = self.spec_parsed();
        let mut out: Vec<Match> = Vec::new();
        if let Some(v) = regex_find(self.compiled_pattern.as_str(), content) {
            let mut i: usize = 0;
            while i < v.len()
                invariant
                    i <= v@.len(),
                    b == content.spec_bytes(),
                    b.len() < usize::MAX,
                    p == self.spec_parsed(),
                    spans_in_text(b, v@),
                    regex_find_spans(compiled_for(self.spec_parsed()), content@) == Some(v@),
                    views(out@) == self.spec_check(content@).take(i as int),
                decreases v@.len() - i,
            {
                let (s, e) = v[i];
                assert(v@[i as int].0 <= v@[i as int].1);
                let (line, col) = line_col_from_offset(content, s);
                let original = substring(content, s, e).to_owned();
                let (kind, suggestion) = match &self.parsed.fix {
                    FixAction::Delete => (MatchKind::Replace(String::new()), String::new()),
                    FixAction::DeleteLine => (MatchKind::DeleteLine, String::new()),
                    FixAction::Replace(rep) => {
                        let x = self.expand(rep.as_str(), content, s);
                        (MatchKind::Replace(x.clone()), x)
                    },
                    FixAction::Flag => (MatchKind::FlagOnly, String::new()),
                };
                let description = match &self.parsed.message {
                    Some(m) => m.clone(),
                    None => {
                        let mut d = String::new();
                        push_str(&mut d, "Custom rule '");
                        push_str(&mut d, self.parsed.name.as_str());
                        push_str(&mut d, "' matched");
                        d
                    },
                };
                let m = Match {
                    rule_id: self.parsed.name.clone(),
                    category: Category::Custom,
                    severity: self.parsed.severity,
                    confidence: self.parsed.confidence,
                    byte_range: Range { start: s, end: e },
                    line,
                    col,
                    original,
                    suggestion,
                    kind,
                    description,
                };
                let ghost before = out@;
                out.push(m);
                assert(views(out@) =~= views(before).push(m@));
                assert(self.spec_check(content@).take(i + 1) =~= self.spec_check(content@).take(
                    i as int,
                ).push(m@));
                i = i + 1;
            }
            assert(self.spec_check(content@).take(v@.len() as int) =~= self.spec_check(content@));
        } else {
            assert(views(out@) =~= self.spec_check(content@));
        }
        out
    }
}

} // verus!
