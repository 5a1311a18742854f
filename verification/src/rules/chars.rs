//! Character classes and the scanner shared by the typographic and symbol
//! rules: every character of a class, outside an allow list, becomes a match.

use vstd::prelude::*;
use vstd::string::*;
use vstd::utf8::*;
use core::ops::Range;
use crate::text::{
    boundary, char_start, decode_at, lemma_char_start, line_col_at, line_col_from_offset,
    scalar_at, substring, text_of, width_at,
};
use super::{Category, KindView, Match, MatchKind, MatchView, Severity, FULL_CONFIDENCE};

verus! {

/// A class of characters that one character rule looks for.
#[derive(Debug, Clone, Copy, PartialEq, Eq, Structural)]
pub enum CharClass {
    EmDash,
    EnDash,
    CurlyQuote,
    Ellipsis,
    Nbsp,
    ZeroWidth,
    SoftHyphen,
    Emoji,
    Decorative,
}

/// Decorative symbols: stars, check marks, arrows, bullets, geometric shapes,
/// card suits, and the reference marks, daggers, section and pilcrow signs.
pub open spec fn is_decorative_code(cp: u32) -> bool {
    cp == 0x2605 || cp == 0x2713 || cp == 0x2714 || cp == 0x2192 || cp == 0x25C6 || cp == 0x25B8
        || cp == 0x2022 || cp == 0x25CF || cp == 0x25CB || cp == 0x25EF || cp == 0x25A0 || cp
        == 0x25A1 || cp == 0x25AA || cp == 0x25AB || cp == 0x25B2 || cp == 0x25BC || cp == 0x25C0
        || cp == 0x25B6 || cp == 0x2666 || cp == 0x2663 || cp == 0x2660 || cp == 0x2665 || cp
        == 0x203B || cp == 0x2020 || cp == 0x2021 || cp == 0xA7 || cp == 0xB6
}

/// Emoji and pictograph blocks.
pub open spec fn is_emoji_code(cp: u32) -> bool {
    (0x1F000 <= cp <= 0x1FAFF) || (0x2600 <= cp <= 0x27BF) || (0x2300 <= cp <= 0x23FF) || (0x2460
        <= cp <= 0x24FF) || (0x25A0 <= cp <= 0x25FF)
}

impl CharClass {
    /// The scalar values that belong to the class.
    pub open spec fn spec_contains(self, cp: u32) -> bool {
        match self {
            CharClass::EmDash => cp == 0x2014,
            CharClass::EnDash => cp == 0x2013,
            CharClass::CurlyQuote => cp == 0x201C || cp == 0x201D || cp == 0x2018 || cp == 0x2019,
            CharClass::Ellipsis => cp == 0x2026,
            CharClass::Nbsp => cp == 0xA0,
            CharClass::ZeroWidth => cp == 0x200B || cp == 0x200C || cp == 0x200D || cp == 0xFEFF,
            CharClass::SoftHyphen => cp == 0xAD,
            CharClass::Emoji => is_emoji_code(cp),
            CharClass::Decorative => is_decorative_code(cp),
        }
    }

    /// Whether a scalar value belongs to the class.
    pub fn contains(&self, cp: u32) -> (r: bool)
        ensures
            r == self.spec_contains(cp),
    {
        match self {
            CharClass::EmDash => cp == 0x2014,
            CharClass::EnDash => cp == 0x2013,
            CharClass::CurlyQuote => cp == 0x201C || cp == 0x201D || cp == 0x2018 || cp == 0x2019,
            CharClass::Ellipsis => cp == 0x2026,
            CharClass::Nbsp => cp == 0xA0,
            CharClass::ZeroWidth => cp == 0x200B || cp == 0x200C || cp == 0x200D || cp == 0xFEFF,
            CharClass::SoftHyphen => cp == 0xAD,
            CharClass::Emoji => (0x1F000 <= cp && cp <= 0x1FAFF) || (0x2600 <= cp && cp <= 0x27BF)
                || (0x2300 <= cp && cp <= 0x23FF) || (0x2460 <= cp && cp <= 0x24FF) || (0x25A0
                <= cp && cp <= 0x25FF),
            CharClass::Decorative => cp == 0x2605 || cp == 0x2713 || cp == 0x2714 || cp == 0x2192
                || cp == 0x25C6 || cp == 0x25B8 || cp == 0x2022 || cp == 0x25CF || cp == 0x25CB
                || cp == 0x25EF || cp == 0x25A0 || cp == 0x25A1 || cp == 0x25AA || cp == 0x25AB
                || cp == 0x25B2 || cp == 0x25BC || cp == 0x25C0 || cp == 0x25B6 || cp == 0x2666
                || cp == 0x2663 || cp == 0x2660 || cp == 0x2665 || cp == 0x203B || cp == 0x2020
                || cp == 0x2021 || cp == 0xA7 || cp == 0xB6,
        }
    }

    /// The identifier of the rule that looks for the class.
    pub open spec fn spec_rule_id(self) -> Seq<char> {
        match self {
            CharClass::EmDash => "em-dash"@,
            CharClass::EnDash => "en-dash"@,
            CharClass::CurlyQuote => "curly-quotes"@,
            CharClass::Ellipsis => "ellipsis"@,
            CharClass::Nbsp => "nbsp"@,
            CharClass::ZeroWidth => "zero-width"@,
            CharClass::SoftHyphen => "soft-hyphen"@,
            CharClass::Emoji => "emoji"@,
            CharClass::Decorative => "decorative-unicode"@,
        }
    }

    /// The identifier of the rule that looks for the class.
    pub fn rule_id(&self) -> (r: &'static str)
        ensures
            r@ == self.spec_rule_id(),
    {
        match self {
            CharClass::EmDash => "em-dash",
            CharClass::EnDash => "en-dash",
            CharClass::CurlyQuote => "curly-quotes",
            CharClass::Ellipsis => "ellipsis",
            CharClass::Nbsp => "nbsp",
            CharClass::ZeroWidth => "zero-width",
            CharClass::SoftHyphen => "soft-hyphen",
            CharClass::Emoji => "emoji",
            CharClass::Decorative => "decorative-unicode",
        }
    }

    /// The category of the rule that looks for the class.
    pub open spec fn spec_category(self) -> Category {
        match self {
            CharClass::Emoji | CharClass::Decorative => Category::Symbol,
            _ => Category::Typographic,
        }
    }

    /// The category of the rule that looks for the class.
    pub fn category(&self) -> (r: Category)
        ensures
            r == self.spec_category(),
    {
        match self {
            CharClass::Emoji | CharClass::Decorative => Category::Symbol,
            _ => Category::Typographic,
        }
    }

    /// The replacement proposed for a character of the class.
    pub open spec fn spec_suggestion(self, cp: u32) -> Seq<char> {
        match self {
            CharClass::EmDash | CharClass::EnDash => " - "@,
            CharClass::CurlyQuote => if cp == 0x201C || cp == 0x201D {
                "\""@
            } else {
                "'"@
            },
            CharClass::Ellipsis => "..."@,
            CharClass::Nbsp => " "@,
            _ => ""@,
        }
    }

    /// The replacement proposed for a character of the class.
    pub fn suggestion(&self, cp: u32) -> (r: &'static str)
        ensures
            r@ == self.spec_suggestion(cp),
    {
        match self {
            CharClass::EmDash | CharClass::EnDash => " - ",
            CharClass::CurlyQuote => if cp == 0x201C || cp == 0x201D {
                "\""
            } else {
                "'"
            },
            CharClass::Ellipsis => "...",
            CharClass::Nbsp => " ",
            _ => "",
        }
    }

    /// The explanation attached to a match of the class.
    pub open spec fn spec_description(self) -> Seq<char> {
        match self {
            CharClass::EmDash => "Em dash (U+2014) is rarely typed by humans and is a strong LLM signal."@,
            CharClass::EnDash => "En dash (U+2013) is a common LLM typographic artifact."@,
            CharClass::CurlyQuote => "Curly quotes are common LLM typographic artifacts."@,
            CharClass::Ellipsis => "Ellipsis character (U+2026) is a common LLM typographic artifact."@,
            CharClass::Nbsp => "Non-breaking space (U+00A0) is often generated by LLMs unnecessarily."@,
            CharClass::ZeroWidth => "Zero-width character is an invisible typographic artifact."@,
            CharClass::SoftHyphen => "Soft hyphen (U+00AD) is an invisible typographic artifact."@,
            CharClass::Emoji => "Emoji character unlikely to be intentionally typed"@,
            CharClass::Decorative => "Decorative Unicode symbol is a common LLM artifact"@,
        }
    }

    /// The explanation attached to a match of the class.
    pub fn description(&self) -> (r: &'static str)
        ensures
            r@ == self.spec_description(),
    {
        match self {
            CharClass::EmDash => "Em dash (U+2014) is rarely typed by humans and is a strong LLM signal.",
            CharClass::EnDash => "En dash (U+2013) is a common LLM typographic artifact.",
            CharClass::CurlyQuote => "Curly quotes are common LLM typographic artifacts.",
            CharClass::Ellipsis => "Ellipsis character (U+2026) is a common LLM typographic artifact.",
            CharClass::Nbsp => "Non-breaking space (U+00A0) is often generated by LLMs unnecessarily.",
            CharClass::ZeroWidth => "Zero-width character is an invisible typographic artifact.",
            CharClass::SoftHyphen => "Soft hyphen (U+00AD) is an invisible typographic artifact.",
            CharClass::Emoji => "Emoji character unlikely to be intentionally typed",
            CharClass::Decorative => "Decorative Unicode symbol is a common LLM artifact",
        }
    }
}

/// A character at `p` is reported: it starts a character of the class whose
/// scalar value is not on the allow list.
pub open spec fn is_hit(b: Seq<u8>, class: CharClass, allow: Seq<u32>, p: int) -> bool {
    char_start(b, p) && class.spec_contains(scalar_at(b, p)) && !allow.contains(scalar_at(b, p))
}

/// Positions below `n` that are reported, in increasing order.
pub open spec fn char_hits(b: Seq<u8>, class: CharClass, allow: Seq<u32>, n: int) -> Seq<int>
    decreases n,
{
    if n <= 0 {
        seq![]
    } else {
        let prev = char_hits(b, class, allow, n - 1);
        if is_hit(b, class, allow, n - 1) {
            prev.push(n - 1)
        } else {
            prev
        }
    }
}

/// The allow list decides exactly which characters of the class a symbol
/// rule leaves alone: no reported position holds an allowed character, and
/// every character of the class that is not allowed is reported.
pub proof fn lemma_allow_list(b: Seq<u8>, class: CharClass, allow: Seq<u32>, n: int)
    ensures
        forall|k: int|
            0 <= k < char_hits(b, class, allow, n).len() ==> {
                let p = #[trigger] char_hits(b, class, allow, n)[k];
                &&& 0 <= p < n
                &&& char_start(b, p)
                &&& class.spec_contains(scalar_at(b, p))
                &&& !allow.contains(scalar_at(b, p))
            },
        forall|p: int|
            0 <= p < n && char_start(b, p) && class.spec_contains(scalar_at(b, p)) && !allow.contains(
                scalar_at(b, p),
            ) ==> char_hits(b, class, allow, n).contains(p),
    decreases n,
{
    if n > 0 {
        lemma_allow_list(b, class, allow, n - 1);
        let prev = char_hits(b, class, allow, n - 1);
        let cur = char_hits(b, class, allow, n);
        assert forall|p: int|
            0 <= p < n && char_start(b, p) && class.spec_contains(scalar_at(b, p)) && !allow.contains(
                scalar_at(b, p),
            ) implies cur.contains(p) by {
            if p < n - 1 {
                let k = choose|k: int| 0 <= k < prev.len() && prev[k] == p;
                assert(cur[k] == p);
            } else {
                assert(cur[cur.len() - 1] == p);
            }
        }
    }
}

/// The match reported for the character of the class that starts at `p`.
pub open spec fn char_match_view(b: Seq<u8>, class: CharClass, p: int) -> MatchView {
    let cp = scalar_at(b, p);
    MatchView {
        rule_id: class.spec_rule_id(),
        category: class.spec_category(),
        severity: Severity::Warn,
        confidence: FULL_CONFIDENCE,
        start: p,
        end: p + width_at(b, p),
        line: line_col_at(b, p).0,
        col: line_col_at(b, p).1,
        original: text_of(b, p, p + width_at(b, p)),
        suggestion: class.spec_suggestion(cp),
        kind: KindView::Replace(class.spec_suggestion(cp)),
        description: class.spec_description(),
    }
}

/// What a character rule reports on `content`: one match per reported
/// character, in order of position.
pub open spec fn char_rule_result(
    b: Seq<u8>,
    class: CharClass,
    allow: Seq<u32>,
    r: Seq<Match>,
) -> bool {
    let hits = char_hits(b, class, allow, b.len() as int);
    &&& r.len() == hits.len()
    &&& forall|k: int| 0 <= k < r.len() ==> (#[trigger] r[k])@ == char_match_view(b, class, hits[k])
}

/// The scanner that every character rule runs: one match per character of
/// `class` in `content` whose scalar value is not in `allow`.
pub fn scan_class(content: &str, class: CharClass, allow: &Vec<u32>) -> (r: Vec<Match>)
    requires
        content.spec_bytes().len() < usize::MAX,
    ensures
        char_rule_result(content.spec_bytes(), class, allow@, r@),
{
    let b = content.as_bytes();
    let ghost bs = content.spec_bytes();
    proof {
        encode_utf8_valid_utf8(content@);
    }
    let mut out: Vec<Match> = Vec::new();
    let mut i: usize = 0;
    while i < b.len()
        invariant
            b@ == bs,
            bs == content.spec_bytes(),
            valid_utf8(bs),
            bs.len() < usize::MAX,
            i <= bs.len(),
            out@.len() == char_hits(bs, class, allow@, i as int).len(),
            forall|k: int|
                0 <= k < out@.len() ==> (#[trigger] out@[k])@ == char_match_view(
                    bs,
                    class,
                    char_hits(bs, class, allow@, i as int)[k],
                ),
        decreases bs.len() - i,
    {
        let byte = b[i];
        let ghost prev = char_hits(bs, class, allow@, i as int);
        if !(0x80u8 <= byte && byte <= 0xbfu8) {
            let (cp, w) = decode_at(b, i);
            let mut allowed = false;
            let mut j: usize = 0;
            while j < allow.len()
                invariant
                    j <= allow@.len(),
                    allowed == (exists|t: int| 0 <= t < j && allow@[t] == cp),
                decreases allow@.len() - j,
            {
                if allow[j] == cp {
                    allowed = true;
                }
                j = j + 1;
            }
            assert(allowed == allow@.contains(cp));
            if class.contains(cp) && !allowed {
                let m = char_match(content, i, w, class, cp);
                out.push(m);
                assert(char_hits(bs, class, allow@, i + 1) == prev.push(i as int));
            } else {
                assert(char_hits(bs, class, allow@, i + 1) == prev);
            }
        } else {
            assert(char_hits(bs, class, allow@, i + 1) == prev);
        }
        i = i + 1;
    }
    out
}

/// The match for the character of `class` that starts at `p` and is `w`
/// bytes wide.
fn char_match(content: &str, p: usize, w: usize, class: CharClass, cp: u32) -> (m: Match)
    requires
        content.spec_bytes().len() < usize::MAX,
        char_start(content.spec_bytes(), p as int),
        w == width_at(content.spec_bytes(), p as int),
        cp == scalar_at(content.spec_bytes(), p as int),
    ensures
        m@ == char_match_view(content.spec_bytes(), class, p as int),
{
    proof {
        encode_utf8_valid_utf8(content@);
        lemma_char_start(content.spec_bytes(), p as int);
    }
    let (line, col) = line_col_from_offset(content, p);
    let original = substring(content, p, p + w);
    let sugg = class.suggestion(cp);
    Match {
        rule_id: String::from_str(class.rule_id()),
        category: class.category(),
        severity: Severity::Warn,
        confidence: FULL_CONFIDENCE,
        byte_range: Range { start: p, end: p + w },
        line,
        col,
        original: original.to_owned(),
        suggestion: String::from_str(sugg),
        kind: MatchKind::Replace(String::from_str(sugg)),
        description: String::from_str(class.description()),
    }
}

} // verus!
