//! Symbol rules: emoji and decorative Unicode symbols, each with an allow
//! list of characters the user keeps.

use vstd::prelude::*;
use vstd::string::*;
use vstd::utf8::*;
use crate::text::decode_at;
use super::chars::{char_rule_result, scan_class, CharClass};
use super::{Category, FileTypeFilter, Match, Span};

verus! {

/// The scalar value of the first character of each non-empty string, in order.
pub open spec fn first_scalars(ss: Seq<String>) -> Seq<u32>
    decreases ss.len(),
{
    if ss.len() == 0 {
        seq![]
    } else {
        let prev = first_scalars(ss.drop_last());
        if ss.last()@.len() > 0 {
            prev.push(ss.last()@[0] as u32)
        } else {
            prev
        }
    }
}

/// The scalar values of the first characters of the allow-list entries.
fn allow_list(allow_symbols: &[String]) -> (r: Vec<u32>)
    ensures
        r@ == first_scalars(allow_symbols@),
{
    let mut out: Vec<u32> = Vec::new();
    let mut i: usize = 0;
    while i < allow_symbols.len()
        invariant
            i <= allow_symbols@.len(),
            out@ == first_scalars(allow_symbols@.subrange(0, i as int)),
        decreases allow_symbols@.len() - i,
    {
        let s: &String = &allow_symbols[i];
        let b = s.as_str().as_bytes();
        let ghost chars = s@;
        proof {
            encode_utf8_valid_utf8(chars);
            assert(allow_symbols@.subrange(0, i + 1).drop_last() == allow_symbols@.subrange(0, i as int));
        }
        if b.len() > 0 {
            proof {
                if chars.len() == 0 {
                    assert(encode_utf8(chars) == Seq::<u8>::empty());
                }
                encode_utf8_first_scalar(chars);
                assert(b@.subrange(0, b@.len() as int) == b@);
            }
            let (cp, _w) = decode_at(b, 0);
            out.push(cp);
        } else {
            proof {
                if chars.len() > 0 {
                    encode_utf8_first_scalar(chars);
                }
            }
        }
        i = i + 1;
    }
    assert(allow_symbols@.subrange(0, allow_symbols@.len() as int) == allow_symbols@);
    out
}

/// Emoji and pictographs, deleted unless their character is allowed.
pub struct EmojiRule {
    allow_set: Vec<u32>,
}

impl EmojiRule {
    /// The scalar values this rule never reports.
    pub closed spec fn allowed(&self) -> Seq<u32> {
        self.allow_set@
    }

    /// A rule that keeps the first character of each allow-list entry.
    pub fn new(allow_symbols: &[String]) -> (r: Self)
        ensures
            r.allowed() == first_scalars(allow_symbols@),
    {
        EmojiRule { allow_set: allow_list(allow_symbols) }
    }

    /// The rule's identifier.
    pub fn id(&self) -> (r: &'static str)
        ensures
            r@ == "emoji"@,
    {
        "emoji"
    }

    /// The rule's category.
    pub fn category(&self) -> (r: Category)
        ensures
            r == Category::Symbol,
    {
        Category::Symbol
    }

    /// The file types the rule applies to.
    pub fn file_type_filter(&self) -> (r: FileTypeFilter)
        ensures
            r == FileTypeFilter::All,
    {
        FileTypeFilter::All
    }

    /// One match per emoji that is not allowed, in order of position.
    pub fn check(&self, content: &str, _comment_spans: Option<&[Span]>) -> (r: Vec<Match>)
        requires
            content.spec_bytes().len() < usize::MAX,
        ensures
            char_rule_result(content.spec_bytes(), CharClass::Emoji, self.allowed(), r@),
    {
        scan_class(content, CharClass::Emoji, &self.allow_set)
    }
}

/// Decorative symbols (stars, check marks, arrows, bullets, shapes, suits,
/// daggers, section and pilcrow signs), deleted unless allowed.
pub struct DecorativeUnicodeRule {
    allow_set: Vec<u32>,
}

impl DecorativeUnicodeRule {
    /// The scalar values this rule never reports.
    pub closed spec fn allowed(&self) -> Seq<u32> {
        self.allow_set@
    }

    /// A rule that keeps the first character of each allow-list entry.
    pub fn new(allow_symbols: &[String]) -> (r: Self)
        ensures
            r.allowed() == first_scalars(allow_symbols@),
    {
        DecorativeUnicodeRule { allow_set: allow_list(allow_symbols) }
    }

    /// Whether the character is one of the decorative symbols.
    pub fn is_decorative(ch: char) -> (r: bool)
        ensures
            r == CharClass::Decorative.spec_contains(ch as u32),
    {
        CharClass::Decorative.contains(ch as u32)
    }

    /// The rule's identifier.
    pub fn id(&self) -> (r: &'static str)
        ensures
            r@ == "decorative-unicode"@,
    {
        "decorative-unicode"
    }

    /// The rule's category.
    pub fn category(&self) -> (r: Category)
        ensures
            r == Category::Symbol,
    {
        Category::Symbol
    }

    /// The file types the rule applies to.
    pub fn file_type_filter(&self) -> (r: FileTypeFilter)
        ensures
            r == FileTypeFilter::All,
    {
        FileTypeFilter::All
    }

    /// One match per decorative symbol that is not allowed, in order of
    /// position.
    pub fn check(&self, content: &str, _comment_spans: Option<&[Span]>) -> (r: Vec<Match>)
        requires
            content.spec_bytes().len() < usize::MAX,
        ensures
            char_rule_result(content.spec_bytes(), CharClass::Decorative, self.allowed(), r@),
    {
        scan_class(content, CharClass::Decorative, &self.allow_set)
    }
}

} // verus!
