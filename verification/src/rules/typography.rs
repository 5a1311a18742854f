//! Typographic rules: dashes, curly quotes, ellipses, non-breaking spaces and
//! invisible characters.

use vstd::prelude::*;
use vstd::string::*;
use vstd::utf8::*;
use crate::bindings::find_byte;
use crate::text::{char_start, lemma_char_start, scalar_at};
use super::chars::{char_hits, char_rule_result, is_hit, scan_class, CharClass};
use super::{Category, FileTypeFilter, Match, Span};

verus! {

proof fn lemma_width1(b0: u8)
    by (bit_vector)
    ensures
        ((b0 & 0x7F) as u32) <= 0x7F,
{
}

proof fn lemma_width2(b0: u8, b1: u8)
    by (bit_vector)
    requires
        0xc0 <= b0 <= 0xdf,
    ensures
        ((((b0 & 0x1F) as u32) << 6u32) | ((b1 & 0x3f) as u32)) <= 0x7FF,
        (0x80 <= ((((b0 & 0x1F) as u32) << 6u32) | ((b1 & 0x3f) as u32)) <= 0xBF) ==> b0 == 0xc2,
{
}

proof fn lemma_width3(b0: u8, b1: u8, b2: u8)
    by (bit_vector)
    requires
        0xe0 <= b0 <= 0xef,
    ensures
        ({
            let cp = (((b0 & 0x0F) as u32) << 12u32) | (((b1 & 0x3f) as u32) << 6u32) | ((b2
                & 0x3f) as u32);
            &&& cp <= 0xFFFF
            &&& (0x2000 <= cp <= 0x2FFF ==> b0 == 0xe2)
            &&& (0xF000 <= cp ==> b0 == 0xef)
        }),
{
}

/// The first byte of a typographic character: `0xC2` for U+0080..U+00BF,
/// `0xE2` for U+2000..U+2FFF and `0xEF` for U+F000..U+FFFF.
proof fn lemma_lead_byte(b: Seq<u8>, p: int)
    requires
        valid_utf8(b),
        char_start(b, p),
    ensures
        0x80 <= scalar_at(b, p) <= 0xBF ==> b[p] == 0xc2,
        0x2000 <= scalar_at(b, p) <= 0x2FFF ==> b[p] == 0xe2,
        0xF000 <= scalar_at(b, p) <= 0xFFFF ==> b[p] == 0xef,
{
    lemma_char_start(b, p);
    let s = b.subrange(p, b.len() as int);
    assert(s[0] == b[p]);
    if is_leading_byte_width_1(s[0]) {
        lemma_width1(s[0]);
    } else if is_leading_byte_width_2(s[0]) {
        lemma_width2(s[0], s[1]);
    } else if is_leading_byte_width_3(s[0]) {
        lemma_width3(s[0], s[1], s[2]);
    }
}

/// A class whose characters all begin with one of the bytes `l1`, `l2`
/// has no reported character in a text without those bytes.
proof fn lemma_no_hits(b: Seq<u8>, class: CharClass, l1: u8, l2: u8, n: int)
    requires
        valid_utf8(b),
        0 <= n <= b.len(),
        forall|p: int| char_start(b, p) && class.spec_contains(scalar_at(b, p)) ==> b[p] == l1 || b[p] == l2,
        forall|j: int| 0 <= j < b.len() ==> b[j] != l1 && b[j] != l2,
    ensures
        char_hits(b, class, seq![], n) == Seq::<int>::empty(),
    decreases n,
{
    if n > 0 {
        lemma_no_hits(b, class, l1, l2, n - 1);
        assert(!is_hit(b, class, seq![], n - 1));
    }
}

/// The check shared by the typographic rules: a text in which neither lead
/// byte occurs has no match; otherwise every character of the class is one.
fn typographic_check(content: &str, class: CharClass, l1: u8, l2: u8) -> (r: Vec<Match>)
    requires
        content.spec_bytes().len() < usize::MAX,
        forall|p: int|
            char_start(content.spec_bytes(), p) && class.spec_contains(
                scalar_at(content.spec_bytes(), p),
            ) ==> content.spec_bytes()[p] == l1 || content.spec_bytes()[p] == l2,
    ensures
        char_rule_result(content.spec_bytes(), class, seq![], r@),
{
    let no_allow: Vec<u32> = Vec::new();
    let bytes = content.as_bytes();
    if find_byte(l1, bytes).is_none() && find_byte(l2, bytes).is_none() {
        proof {
            encode_utf8_valid_utf8(content@);
            lemma_no_hits(content.spec_bytes(), class, l1, l2, content.spec_bytes().len() as int);
        }
        return Vec::new();
    }
    assert(no_allow@ == Seq::<u32>::empty());
    scan_class(content, class, &no_allow)
}

/// Every character of a typographic class begins with its lead byte.
proof fn lemma_class_leads(b: Seq<u8>)
    requires
        valid_utf8(b),
    ensures
        forall|p: int|
            char_start(b, p) && (CharClass::EmDash.spec_contains(scalar_at(b, p))
                || CharClass::EnDash.spec_contains(scalar_at(b, p))
                || CharClass::CurlyQuote.spec_contains(scalar_at(b, p))
                || CharClass::Ellipsis.spec_contains(scalar_at(b, p))) ==> b[p] == 0xe2,
        forall|p: int|
            char_start(b, p) && (CharClass::Nbsp.spec_contains(scalar_at(b, p))
                || CharClass::SoftHyphen.spec_contains(scalar_at(b, p))) ==> b[p] == 0xc2,
        forall|p: int|
            char_start(b, p) && CharClass::ZeroWidth.spec_contains(scalar_at(b, p)) ==> b[p]
                == 0xe2 || b[p] == 0xef,
{
    assert forall|p: int| char_start(b, p) implies ({
        &&& (0x80 <= scalar_at(b, p) <= 0xBF ==> b[p] == 0xc2)
        &&& (0x2000 <= scalar_at(b, p) <= 0x2FFF ==> b[p] == 0xe2)
        &&& (0xF000 <= scalar_at(b, p) <= 0xFFFF ==> b[p] == 0xef)
    }) by {
        lemma_lead_byte(b, p);
    }
}

/// Em dashes (U+2014), replaced by a spaced hyphen.
pub struct EmDashRule;

impl EmDashRule {
    /// The rule's identifier.
    pub fn id(&self) -> (r: &'static str)
        ensures
            r@ == "em-dash"@,
    {
        "em-dash"
    }

    /// The rule's category.
    pub fn category(&self) -> (r: Category)
        ensures
            r == Category::Typographic,
    {
        Category::Typographic
    }

    /// The file types the rule applies to.
    pub fn file_type_filter(&self) -> (r: FileTypeFilter)
        ensures
            r == FileTypeFilter::All,
    {
        FileTypeFilter::All
    }

    /// One match per character of the class, in order of position.
    pub fn check(&self, content: &str, _comment_spans: Option<&[Span]>) -> (r: Vec<Match>)
        requires
            content.spec_bytes().len() < usize::MAX,
        ensures
            char_rule_result(content.spec_bytes(), CharClass::EmDash, seq![], r@),
    {
        proof {
            encode_utf8_valid_utf8(content@);
            lemma_class_leads(content.spec_bytes());
        }
        typographic_check(content, CharClass::EmDash, 0xe2u8, 0xe2u8)
    }
}

/// En dashes (U+2013), replaced by a spaced hyphen.
pub struct EnDashRule;

impl EnDashRule {
    /// The rule's identifier.
    pub fn id(&self) -> (r: &'static str)
        ensures
            r@ == "en-dash"@,
    {
        "en-dash"
    }

    /// The rule's category.
    pub fn category(&self) -> (r: Category)
        ensures
            r == Category::Typographic,
    {
        Category::Typographic
    }

    /// The file types the rule applies to.
    pub fn file_type_filter(&self) -> (r: FileTypeFilter)
        ensures
            r == FileTypeFilter::All,
    {
        FileTypeFilter::All
    }

    /// One match per character of the class, in order of position.
    pub fn check(&self, content: &str, _comment_spans: Option<&[Span]>) -> (r: Vec<Match>)
        requires
            content.spec_bytes().len() < usize::MAX,
        ensures
            char_rule_result(content.spec_bytes(), CharClass::EnDash, seq![], r@),
    {
        proof {
            encode_utf8_valid_utf8(content@);
            lemma_class_leads(content.spec_bytes());
        }
        typographic_check(content, CharClass::EnDash, 0xe2u8, 0xe2u8)
    }
}

/// Curly double and single quotes, replaced by straight quotes.
pub struct CurlyQuotesRule;

impl CurlyQuotesRule {
    /// The rule's identifier.
    pub fn id(&self) -> (r: &'static str)
        ensures
            r@ == "curly-quotes"@,
    {
        "curly-quotes"
    }

    /// The rule's category.
    pub fn category(&self) -> (r: Category)
        ensures
            r == Category::Typographic,
    {
        Category::Typographic
    }

    /// The file types the rule applies to.
    pub fn file_type_filter(&self) -> (r: FileTypeFilter)
        ensures
            r == FileTypeFilter::All,
    {
        FileTypeFilter::All
    }

    /// One match per character of the class, in order of position.
    pub fn check(&self, content: &str, _comment_spans: Option<&[Span]>) -> (r: Vec<Match>)
        requires
            content.spec_bytes().len() < usize::MAX,
        ensures
            char_rule_result(content.spec_bytes(), CharClass::CurlyQuote, seq![], r@),
    {
        proof {
            encode_utf8_valid_utf8(content@);
            lemma_class_leads(content.spec_bytes());
        }
        typographic_check(content, CharClass::CurlyQuote, 0xe2u8, 0xe2u8)
    }
}

/// The ellipsis character (U+2026), replaced by three dots.
pub struct EllipsisRule;

impl EllipsisRule {
    /// The rule's identifier.
    pub fn id(&self) -> (r: &'static str)
        ensures
            r@ == "ellipsis"@,
    {
        "ellipsis"
    }

    /// The rule's category.
    pub fn category(&self) -> (r: Category)
        ensures
            r == Category::Typographic,
    {
        Category::Typographic
    }

    /// The file types the rule applies to.
    pub fn file_type_filter(&self) -> (r: FileTypeFilter)
        ensures
            r == FileTypeFilter::All,
    {
        FileTypeFilter::All
    }

    /// One match per character of the class, in order of position.
    pub fn check(&self, content: &str, _comment_spans: Option<&[Span]>) -> (r: Vec<Match>)
        requires
            content.spec_bytes().len() < usize::MAX,
        ensures
            char_rule_result(content.spec_bytes(), CharClass::Ellipsis, seq![], r@),
    {
        proof {
            encode_utf8_valid_utf8(content@);
            lemma_class_leads(content.spec_bytes());
        }
        typographic_check(content, CharClass::Ellipsis, 0xe2u8, 0xe2u8)
    }
}

/// Non-breaking spaces (U+00A0), replaced by plain spaces.
pub struct NbspRule;

impl NbspRule {
    /// The rule's identifier.
    pub fn id(&self) -> (r: &'static str)
        ensures
            r@ == "nbsp"@,
    {
        "nbsp"
    }

    /// The rule's category.
    pub fn category(&self) -> (r: Category)
        ensures
            r == Category::Typographic,
    {
        Category::Typographic
    }

    /// The file types the rule applies to.
    pub fn file_type_filter(&self) -> (r: FileTypeFilter)
        ensures
            r == FileTypeFilter::All,
    {
        FileTypeFilter::All
    }

    /// One match per character of the class, in order of position.
    pub fn check(&self, content: &str, _comment_spans: Option<&[Span]>) -> (r: Vec<Match>)
        requires
            content.spec_bytes().len() < usize::MAX,
        ensures
            char_rule_result(content.spec_bytes(), CharClass::Nbsp, seq![], r@),
    {
        proof {
            encode_utf8_valid_utf8(content@);
            lemma_class_leads(content.spec_bytes());
        }
        typographic_check(content, CharClass::Nbsp, 0xc2u8, 0xc2u8)
    }
}

/// Zero-width spaces, joiners and byte-order marks, deleted.
pub struct ZeroWidthRule;

impl ZeroWidthRule {
    /// The rule's identifier.
    pub fn id(&self) -> (r: &'static str)
        ensures
            r@ == "zero-width"@,
    {
        "zero-width"
    }

    /// The rule's category.
    pub fn category(&self) -> (r: Category)
        ensures
            r == Category::Typographic,
    {
        Category::Typographic
    }

    /// The file types the rule applies to.
    pub fn file_type_filter(&self) -> (r: FileTypeFilter)
        ensures
            r == FileTypeFilter::All,
    {
        FileTypeFilter::All
    }

    /// One match per character of the class, in order of position.
    pub fn check(&self, content: &str, _comment_spans: Option<&[Span]>) -> (r: Vec<Match>)
        requires
            content.spec_bytes().len() < usize::MAX,
        ensures
            char_rule_result(content.spec_bytes(), CharClass::ZeroWidth, seq![], r@),
    {
        proof {
            encode_utf8_valid_utf8(content@);
            lemma_class_leads(content.spec_bytes());
        }
        typographic_check(content, CharClass::ZeroWidth, 0xe2u8, 0xefu8)
    }
}

/// Soft hyphens (U+00AD), deleted.
pub struct SoftHyphenRule;

impl SoftHyphenRule {
    /// The rule's identifier.
    pub fn id(&self) -> (r: &'static str)
        ensures
            r@ == "soft-hyphen"@,
    {
        "soft-hyphen"
    }

    /// The rule's category.
    pub fn category(&self) -> (r: Category)
        ensures
            r == Category::Typographic,
    {
        Category::Typographic
    }

    /// The file types the rule applies to.
    pub fn file_type_filter(&self) -> (r: FileTypeFilter)
        ensures
            r == FileTypeFilter::All,
    {
        FileTypeFilter::All
    }

    /// One match per character of the class, in order of position.
    pub fn check(&self, content: &str, _comment_spans: Option<&[Span]>) -> (r: Vec<Match>)
        requires
            content.spec_bytes().len() < usize::MAX,
        ensures
            char_rule_result(content.spec_bytes(), CharClass::SoftHyphen, seq![], r@),
    {
        proof {
            encode_utf8_valid_utf8(content@);
            lemma_class_leads(content.spec_bytes());
        }
        typographic_check(content, CharClass::SoftHyphen, 0xc2u8, 0xc2u8)
    }
}

} // verus!
