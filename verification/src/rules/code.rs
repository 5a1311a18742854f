//! Code rules: comments that restate the adjacent line of code, and
//! docstrings that restate the signature.

use vstd::prelude::*;
use vstd::string::*;
use vstd::utf8::*;
use core::ops::Range;
use crate::bindings::{
    is_lowercase, is_uppercase, lowercase_char, lowercase_text, regex_find, regex_find_spans,
    regex_split, regex_split_pieces, to_lowercase, uppercase_char,
};
use crate::text::{
    boundary, char_offsets, char_slice, chars_of, decode_at, lemma_char_start, line_col_at,
    line_col_from_offset, matches_at, push_str, replace_all, replace_all_of, starts_with, str_eq,
    substring, text_of, trim_bounds, trim_chars, trim_str, trimmed,
};
use super::pattern::{span_match, span_view, template, Template, TemplateView};
use super::{views, Category, FileTypeFilter, KindView, Match, MatchKind, MatchView, Severity, Span};

verus! {

/// The string values of a list of strings.
pub open spec fn strings_view(v: Seq<String>) -> Seq<Seq<char>> {
    Seq::new(v.len(), |k: int| v[k]@)
}

// ---------------------------------------------------------------------------
// Lines
// ---------------------------------------------------------------------------

/// The byte ranges of the lines of `b[start..]`, scanning from `i`, as
/// `str::lines` yields them: split at `\n`, without the `\n` and without a
/// `\r` right before it; a last line without `\n` only when it is not empty.
pub open spec fn lines_from(b: Seq<u8>, start: int, i: int) -> Seq<(int, int)>
    decreases b.len() - i,
{
    if i < 0 || i >= b.len() {
        if start < b.len() {
            seq![(start, b.len() as int)]
        } else {
            seq![]
        }
    } else if b[i] == 10u8 {
        let e = if i > start && b[i - 1] == 13u8 {
            i - 1
        } else {
            i
        };
        seq![(start, e)] + lines_from(b, i + 1, i + 1)
    } else {
        lines_from(b, start, i + 1)
    }
}

/// The byte ranges of the lines of `b`.
pub open spec fn line_ranges(b: Seq<u8>) -> Seq<(int, int)> {
    lines_from(b, 0, 0)
}

/// Line ranges are ordered, lie inside the text, and are separated by at
/// least one byte.
pub open spec fn ranges_ok(b: Seq<u8>, rs: Seq<(usize, usize)>) -> bool {
    &&& forall|k: int|
        0 <= k < rs.len() ==> #[trigger] rs[k].0 <= rs[k].1 <= b.len() && boundary(b, rs[k].0 as int)
            && boundary(b, rs[k].1 as int)
    &&& forall|k: int| 0 <= k < rs.len() - 1 ==> #[trigger] rs[k].1 < rs[k + 1].0
}

/// The byte ranges of the lines of `content`.
pub fn lines_of(content: &str) -> (r: Vec<(usize, usize)>)
    ensures
        r@.len() == line_ranges(content.spec_bytes()).len(),
        forall|k: int|
            0 <= k < r@.len() ==> r@[k].0 as int == line_ranges(content.spec_bytes())[k].0
                && r@[k].1 as int == line_ranges(content.spec_bytes())[k].1,
        ranges_ok(content.spec_bytes(), r@),
{
    let b = content.as_bytes();
    let ghost bs = b@;
    proof {
        encode_utf8_valid_utf8(content@);
    }
    let mut out: Vec<(usize, usize)> = Vec::new();
    let mut start: usize = 0;
    let mut i: usize = 0;
    while i < b.len()
        invariant
            bs == b@,
            bs == content.spec_bytes(),
            valid_utf8(bs),
            start <= i <= bs.len(),
            boundary(bs, start as int),
            forall|q: int| start <= q < i ==> bs[q] != 10u8,
            ranges_ok(bs, out@),
            out@.len() > 0 ==> out@[out@.len() - 1].1 < start,
            forall|k: int|
                0 <= k < out@.len() ==> (out@[k].0 as int, out@[k].1 as int) == line_ranges(bs)[k],
            line_ranges(bs) == Seq::new(out@.len(), |k: int| (out@[k].0 as int, out@[k].1 as int))
                + lines_from(bs, start as int, i as int),
        decreases bs.len() - i,
    {
        let ghost prev_out = out@;
        if b[i] == 10u8 {
            let e = if i > start && b[i - 1] == 13u8 {
                i - 1
            } else {
                i
            };
            proof {
                lemma_char_start(bs, i as int);
                if e < i {
                    assert(!is_continuation_byte(bs[e as int]));
                }
                width_of_ascii(bs, i as int);
            }
            out.push((start, e));
            proof {
                assert(Seq::new(out@.len(), |k: int| (out@[k].0 as int, out@[k].1 as int))
                    =~= Seq::new(prev_out.len(), |k: int| (prev_out[k].0 as int, prev_out[k].1 as int)).push((start as int, e as int)));
            }
            start = i + 1;
            i = i + 1;
        } else {
            i = i + 1;
        }
    }
    let ghost prev_out = out@;
    if start < b.len() {
        out.push((start, b.len()));
        proof {
            assert(Seq::new(out@.len(), |k: int| (out@[k].0 as int, out@[k].1 as int))
                =~= Seq::new(prev_out.len(), |k: int| (prev_out[k].0 as int, prev_out[k].1 as int)).push((start as int, bs.len() as int)));
        }
    } else {
        assert(lines_from(bs, start as int, i as int) == Seq::<(int, int)>::empty());
    }
    out
}

/// An ASCII byte is a whole character.
proof fn width_of_ascii(b: Seq<u8>, i: int)
    requires
        valid_utf8(b),
        0 <= i < b.len(),
        b[i] < 0x80,
    ensures
        crate::text::width_at(b, i) == 1,
        boundary(b, i + 1),
{
    lemma_char_start(b, i);
    assert(b.subrange(i, b.len() as int)[0] == b[i]);
}

// ---------------------------------------------------------------------------
// Comment lines
// ---------------------------------------------------------------------------

/// A line whose trimmed text starts with `//`, `#`, `--` or `%`.
pub open spec fn spec_is_comment_line(cs: Seq<char>) -> bool {
    let t = trimmed(cs);
    starts_with(t, seq!['/', '/']) || starts_with(t, seq!['#']) || starts_with(t, seq!['-', '-'])
        || starts_with(t, seq!['%'])
}

/// A line whose trimmed text starts with `///` or `//!`.
pub open spec fn spec_is_doc_comment_line(cs: Seq<char>) -> bool {
    let t = trimmed(cs);
    starts_with(t, seq!['/', '/', '/']) || starts_with(t, seq!['/', '/', '!'])
}

/// The trimmed text of a line without its comment marker.
pub open spec fn spec_strip_comment_prefix(cs: Seq<char>) -> Seq<char> {
    let t = trimmed(cs);
    if starts_with(t, seq!['/', '/']) {
        t.skip(2)
    } else if starts_with(t, seq!['#']) {
        t.skip(1)
    } else if starts_with(t, seq!['-', '-']) {
        t.skip(2)
    } else if starts_with(t, seq!['%']) {
        t.skip(1)
    } else {
        t
    }
}

/// Whether the characters from index `a` (below `z`) start with `p`.
fn chars_start_with(cs: &Vec<char>, a: usize, z: usize, p0: char, p1: Option<char>, p2: Option<char>) -> (r: bool)
    requires
        a <= z <= cs@.len(),
    ensures
        r == starts_with(
            cs@.subrange(a as int, z as int),
            match (p1, p2) {
                (Some(c1), Some(c2)) => seq![p0, c1, c2],
                (Some(c1), None) => seq![p0, c1],
                _ => seq![p0],
            },
        ),
{
    let t = Ghost(cs@.subrange(a as int, z as int));
    match (p1, p2) {
        (Some(c1), Some(c2)) => {
            let r = z - a >= 3 && cs[a] == p0 && cs[a + 1] == c1 && cs[a + 2] == c2;
            proof {
                if z - a >= 3 {
                    assert(t@.take(3) =~= seq![cs@[a as int], cs@[a + 1], cs@[a + 2]]);
                    if t@.take(3) == seq![p0, c1, c2] {
                        assert(t@.take(3)[0] == p0 && t@.take(3)[1] == c1 && t@.take(3)[2] == c2);
                    }
                }
            }
            r
        },
        (Some(c1), None) => {
            let r = z - a >= 2 && cs[a] == p0 && cs[a + 1] == c1;
            proof {
                if z - a >= 2 {
                    assert(t@.take(2) =~= seq![cs@[a as int], cs@[a + 1]]);
                    if t@.take(2) == seq![p0, c1] {
                        assert(t@.take(2)[0] == p0 && t@.take(2)[1] == c1);
                    }
                }
            }
            r
        },
        _ => {
            let r = z - a >= 1 && cs[a] == p0;
            proof {
                if z - a >= 1 {
                    assert(t@.take(1) =~= seq![cs@[a as int]]);
                    if t@.take(1) == seq![p0] {
                        assert(t@.take(1)[0] == p0);
                    }
                }
            }
            r
        },
    }
}

/// Whether a line is a comment line.
pub fn is_comment_line(line: &str) -> (r: bool)
    ensures
        r == spec_is_comment_line(line@),
{
    let cs = chars_of(line);
    let (a, z) = trim_chars(&cs);
    chars_start_with(&cs, a, z, '/', Some('/'), None) || chars_start_with(&cs, a, z, '#', None, None)
        || chars_start_with(&cs, a, z, '-', Some('-'), None) || chars_start_with(
        &cs,
        a,
        z,
        '%',
        None,
        None,
    )
}

/// Whether a line is a doc comment line (`///` or `//!`).
pub fn is_doc_comment_line(line: &str) -> (r: bool)
    ensures
        r == spec_is_doc_comment_line(line@),
{
    let cs = chars_of(line);
    let (a, z) = trim_chars(&cs);
    chars_start_with(&cs, a, z, '/', Some('/'), Some('/')) || chars_start_with(
        &cs,
        a,
        z,
        '/',
        Some('/'),
        Some('!'),
    )
}

/// The trimmed text of a line without its comment marker.
pub fn strip_comment_prefix(line: &str) -> (r: &str)
    ensures
        r@ == spec_strip_comment_prefix(line@),
{
    let cs = chars_of(line);
    let offs = char_offsets(line);
    let (a, z) = trim_chars(&cs);
    let ghost t = cs@.subrange(a as int, z as int);
    if chars_start_with(&cs, a, z, '/', Some('/'), None) {
        assert(t.skip(2) =~= cs@.subrange(a + 2, z as int));
        char_slice(line, &offs, a + 2, z)
    } else if chars_start_with(&cs, a, z, '#', None, None) {
        assert(t.skip(1) =~= cs@.subrange(a + 1, z as int));
        char_slice(line, &offs, a + 1, z)
    } else if chars_start_with(&cs, a, z, '-', Some('-'), None) {
        assert(t.skip(2) =~= cs@.subrange(a + 2, z as int));
        char_slice(line, &offs, a + 2, z)
    } else if chars_start_with(&cs, a, z, '%', None, None) {
        assert(t.skip(1) =~= cs@.subrange(a + 1, z as int));
        char_slice(line, &offs, a + 1, z)
    } else {
        char_slice(line, &offs, a, z)
    }
}


// ---------------------------------------------------------------------------
// Tokens
// ---------------------------------------------------------------------------

/// The separator between words: runs of white space and underscores, or of
/// ASCII punctuation.
pub open spec fn word_split_pattern() -> Seq<char> {
    r"[\s_]+|[[:punct:]]+"@
}

/// The pieces of a text between separators.
pub open spec fn word_pieces(text: Seq<char>) -> Seq<Seq<char>> {
    match regex_split_pieces(word_split_pattern(), text) {
        Some(ps) => ps,
        None => seq![],
    }
}

/// Words that carry no information in a comment: verbs that restate code,
/// articles, prepositions and common fillers.
pub open spec fn spec_is_stop_word(w: Seq<char>) -> bool {
    w == "initialize"@ || w == "set"@ || w == "get"@ || w == "create"@ || w == "return"@ || w == "loop"@ || w == "iterate"@ || w == "check"@ || w == "make"@ || w == "add"@ || w == "update"@ || w == "increment"@ || w == "decrement"@ || w == "append"@ || w == "print"@ || w == "call"@ || w == "define"@ || w == "declare"@ || w == "assign"@ || w == "store"@ || w == "compute"@ || w == "calculate"@ || w == "the"@ || w == "a"@ || w == "an"@ || w == "to"@ || w == "for"@ || w == "of"@ || w == "in"@ || w == "on"@ || w == "at"@ || w == "by"@ || w == "is"@ || w == "it"@ || w == "this"@ || w == "that"@ || w == "with"@ || w == "from"@ || w == "and"@ || w == "or"@ || w == "not"@ || w == "if"@ || w == "then"@ || w == "else"@ || w == "new"@ || w == "into"@ || w == "as"@ || w == "up"@
}

/// Whether a word is a stop word.
pub fn is_stop_word(w: &str) -> (r: bool)
    ensures
        r == spec_is_stop_word(w@),
{
    str_eq(w, "initialize") || str_eq(w, "set") || str_eq(w, "get") || str_eq(w, "create") || str_eq(w, "return") || str_eq(w, "loop") || str_eq(w, "iterate") || str_eq(w, "check") || str_eq(w, "make") || str_eq(w, "add") || str_eq(w, "update") || str_eq(w, "increment") || str_eq(w, "decrement") || str_eq(w, "append") || str_eq(w, "print") || str_eq(w, "call") || str_eq(w, "define") || str_eq(w, "declare") || str_eq(w, "assign") || str_eq(w, "store") || str_eq(w, "compute") || str_eq(w, "calculate") || str_eq(w, "the") || str_eq(w, "a") || str_eq(w, "an") || str_eq(w, "to") || str_eq(w, "for") || str_eq(w, "of") || str_eq(w, "in") || str_eq(w, "on") || str_eq(w, "at") || str_eq(w, "by") || str_eq(w, "is") || str_eq(w, "it") || str_eq(w, "this") || str_eq(w, "that") || str_eq(w, "with") || str_eq(w, "from") || str_eq(w, "and") || str_eq(w, "or") || str_eq(w, "not") || str_eq(w, "if") || str_eq(w, "then") || str_eq(w, "else") || str_eq(w, "new") || str_eq(w, "into") || str_eq(w, "as") || str_eq(w, "up")
}

/// The lowercased non-empty pieces that are not stop words, in order.
pub open spec fn keep_comment_tokens(ps: Seq<Seq<char>>) -> Seq<Seq<char>>
    decreases ps.len(),
{
    if ps.len() == 0 {
        seq![]
    } else {
        let prev = keep_comment_tokens(ps.drop_last());
        let p = ps.last();
        if p.len() == 0 || spec_is_stop_word(lowercase_text(p)) {
            prev
        } else {
            prev.push(lowercase_text(p))
        }
    }
}

/// The tokens of a comment's text.
pub open spec fn comment_tokens(text: Seq<char>) -> Seq<Seq<char>> {
    keep_comment_tokens(word_pieces(text))
}

/// The pieces of a text between separators.
fn split_words(text: &str) -> (r: Vec<String>)
    ensures
        strings_view(r@) == word_pieces(text@),
{
    match regex_split(r"[\s_]+|[[:punct:]]+", text) {
        Some(v) => v,
        None => Vec::new(),
    }
}

/// The lowercased words of a comment, without stop words.
pub fn tokenize_comment(text: &str) -> (r: Vec<String>)
    ensures
        strings_view(r@) == comment_tokens(text@),
{
    let pieces = split_words(text);
    let ghost ps = strings_view(pieces@);
    let mut out: Vec<String> = Vec::new();
    let mut i: usize = 0;
    while i < pieces.len()
        invariant
            i <= pieces@.len(),
            ps == strings_view(pieces@),
            strings_view(out@) == keep_comment_tokens(ps.take(i as int)),
        decreases pieces@.len() - i,
    {
        let p: &str = pieces[i].as_str();
        let ghost before = out@;
        proof {
            assert(ps.take(i + 1).drop_last() == ps.take(i as int));
            assert(ps.take(i + 1).last() == p@);
        }
        if p.as_bytes().len() > 0 {
            proof {
                if p@.len() == 0 {
                    assert(encode_utf8(p@) == Seq::<u8>::empty());
                }
            }
            let lower = to_lowercase(p);
            if !is_stop_word(lower.as_str()) {
                out.push(lower);
                assert(strings_view(out@) =~= strings_view(before).push(lower@));
            }
        } else {
            proof {
                if p@.len() > 0 {
                    crate::text::lemma_char_offset(p@, 0);
                }
            }
        }
        i = i + 1;
    }
    assert(ps.take(ps.len() as int) == ps);
    out
}

/// The camel-case parts of `cs[start..]`, scanning from `i`, lowercased: a
/// new part starts at an uppercase character that follows a lowercase one.
pub open spec fn camel_from(cs: Seq<char>, start: int, i: int) -> Seq<Seq<char>>
    decreases cs.len() - i,
{
    if i < 0 || i >= cs.len() {
        if 0 <= start < cs.len() {
            seq![lowercase_text(cs.subrange(start, cs.len() as int))]
        } else {
            seq![]
        }
    } else if i > start && uppercase_char(cs[i]) && lowercase_char(cs[i - 1]) {
        seq![lowercase_text(cs.subrange(start, i))] + camel_from(cs, i, i + 1)
    } else {
        camel_from(cs, start, i + 1)
    }
}

/// Split a string on camelCase boundaries, lowercasing each part.
pub fn split_camel_case(s: &str) -> (r: Vec<String>)
    ensures
        strings_view(r@) == camel_from(s@, 0, 0),
{
    let cs = chars_of(s);
    let offs = char_offsets(s);
    let mut parts: Vec<String> = Vec::new();
    let mut start: usize = 0;
    let mut i: usize = 0;
    while i < cs.len()
        invariant
            cs@ == s@,
            offs@.len() == s@.len() + 1,
            forall|k: int| 0 <= k <= s@.len() ==> offs@[k] as int == encode_utf8(s@.take(k)).len(),
            start <= i <= cs@.len(),
            camel_from(s@, 0, 0) == strings_view(parts@) + camel_from(s@, start as int, i as int),
        decreases cs@.len() - i,
    {
        if i > start && is_uppercase(cs[i]) && is_lowercase(cs[i - 1]) {
            let piece = char_slice(s, &offs, start, i);
            let lower = to_lowercase(piece);
            let ghost before = parts@;
            parts.push(lower);
            assert(strings_view(parts@) =~= strings_view(before) + seq![lower@]);
            start = i;
        }
        i = i + 1;
    }
    let ghost before = parts@;
    if start < cs.len() {
        let piece = char_slice(s, &offs, start, cs.len());
        let lower = to_lowercase(piece);
        parts.push(lower);
        assert(strings_view(parts@) =~= strings_view(before) + seq![lower@]);
    } else {
        assert(strings_view(parts@) + Seq::<Seq<char>>::empty() == strings_view(parts@));
    }
    parts
}

/// The non-empty camel-case parts of the non-empty pieces, in order.
pub open spec fn code_parts(ps: Seq<Seq<char>>) -> Seq<Seq<char>>
    decreases ps.len(),
{
    if ps.len() == 0 {
        seq![]
    } else {
        let prev = code_parts(ps.drop_last());
        if ps.last().len() == 0 {
            prev
        } else {
            prev + nonempty(camel_from(ps.last(), 0, 0))
        }
    }
}

/// The non-empty strings of a list.
pub open spec fn nonempty(ss: Seq<Seq<char>>) -> Seq<Seq<char>>
    decreases ss.len(),
{
    if ss.len() == 0 {
        seq![]
    } else if ss.last().len() == 0 {
        nonempty(ss.drop_last())
    } else {
        nonempty(ss.drop_last()).push(ss.last())
    }
}

/// The tokens of a line of code: its words, split on camel case, lowercased.
pub open spec fn code_tokens(text: Seq<char>) -> Seq<Seq<char>> {
    code_parts(word_pieces(text))
}

/// The identifiers and words of a line of code, split on camel case and
/// lowercased.
pub fn tokenize_code(text: &str) -> (r: Vec<String>)
    ensures
        strings_view(r@) == code_tokens(text@),
{
    let pieces = split_words(text);
    let ghost ps = strings_view(pieces@);
    let mut out: Vec<String> = Vec::new();
    let mut i: usize = 0;
    while i < pieces.len()
        invariant
            i <= pieces@.len(),
            ps == strings_view(pieces@),
            strings_view(out@) == code_parts(ps.take(i as int)),
        decreases pieces@.len() - i,
    {
        let p: &str = pieces[i].as_str();
        proof {
            assert(ps.take(i + 1).drop_last() == ps.take(i as int));
            assert(ps.take(i + 1).last() == p@);
        }
        if p.as_bytes().len() > 0 {
            proof {
                if p@.len() == 0 {
                    assert(encode_utf8(p@) == Seq::<u8>::empty());
                }
            }
            let subs = split_camel_case(p);
            let ghost ss = strings_view(subs@);
            let ghost base = strings_view(out@);
            let mut j: usize = 0;
            while j < subs.len()
                invariant
                    j <= subs@.len(),
                    ss == strings_view(subs@),
                    strings_view(out@) == base + nonempty(ss.take(j as int)),
                decreases subs@.len() - j,
            {
                let sub: &str = subs[j].as_str();
                let ghost before = out@;
                proof {
                    assert(ss.take(j + 1).drop_last() == ss.take(j as int));
                    assert(ss.take(j + 1).last() == sub@);
                }
                if sub.as_bytes().len() > 0 {
                    proof {
                        if sub@.len() == 0 {
                            assert(encode_utf8(sub@) == Seq::<u8>::empty());
                        }
                    }
                    out.push(subs[j].clone());
                    assert(strings_view(out@) =~= strings_view(before).push(sub@));
                } else {
                    proof {
                        if sub@.len() > 0 {
                            crate::text::lemma_char_offset(sub@, 0);
                        }
                    }
                }
                j = j + 1;
            }
            assert(ss.take(ss.len() as int) == ss);
        } else {
            proof {
                if p@.len() > 0 {
                    crate::text::lemma_char_offset(p@, 0);
                }
            }
        }
        i = i + 1;
    }
    assert(ps.take(ps.len() as int) == ps);
    out
}

/// How many tokens of the list occur among the code tokens.
pub open spec fn overlap_count(ts: Seq<Seq<char>>, code: Seq<Seq<char>>) -> int
    decreases ts.len(),
{
    if ts.len() == 0 {
        0
    } else {
        overlap_count(ts.drop_last(), code) + if code.contains(ts.last()) {
            1int
        } else {
            0int
        }
    }
}

/// Whether the token occurs in the list.
fn contains_token(list: &Vec<String>, t: &str) -> (r: bool)
    ensures
        r == strings_view(list@).contains(t@),
{
    let mut i: usize = 0;
    while i < list.len()
        invariant
            i <= list@.len(),
            forall|k: int| 0 <= k < i ==> list@[k]@ != t@,
        decreases list@.len() - i,
    {
        if str_eq(list[i].as_str(), t) {
            assert(strings_view(list@)[i as int] == t@);
            return true;
        }
        i = i + 1;
    }
    assert forall|k: int| 0 <= k < strings_view(list@).len() implies strings_view(list@)[k] != t@ by {
        assert(strings_view(list@)[k] == list@[k]@);
    }
    false
}

/// How many comment tokens occur among the code tokens.
fn count_overlap(ts: &Vec<String>, code: &Vec<String>) -> (r: usize)
    ensures
        r as int == overlap_count(strings_view(ts@), strings_view(code@)),
        r <= ts@.len(),
{
    let ghost tv = strings_view(ts@);
    let mut n: usize = 0;
    let mut i: usize = 0;
    while i < ts.len()
        invariant
            i <= ts@.len(),
            tv == strings_view(ts@),
            n <= i,
            n as int == overlap_count(tv.take(i as int), strings_view(code@)),
        decreases ts@.len() - i,
    {
        proof {
            assert(tv.take(i + 1).drop_last() == tv.take(i as int));
            assert(tv.take(i + 1).last() == ts@[i as int]@);
        }
        if contains_token(code, ts[i].as_str()) {
            n = n + 1;
        }
        i = i + 1;
    }
    assert(tv.take(tv.len() as int) == tv);
    n
}


// ---------------------------------------------------------------------------
// Trivial comments
// ---------------------------------------------------------------------------

/// A line that holds code: not blank once trimmed, and not a comment.
pub open spec fn spec_is_code_line(cs: Seq<char>) -> bool {
    trimmed(cs).len() > 0 && !spec_is_comment_line(cs)
}

/// The texts of the lines of `b`.
pub open spec fn line_texts(b: Seq<u8>) -> Seq<Seq<char>> {
    Seq::new(
        line_ranges(b).len(),
        |k: int| text_of(b, line_ranges(b)[k].0, line_ranges(b)[k].1),
    )
}

/// The texts of a list of string slices.
pub open spec fn strs_view(v: Seq<&str>) -> Seq<Seq<char>> {
    Seq::new(v.len(), |k: int| v[k]@)
}

/// The index of the first code line at or after `j`.
pub open spec fn code_after(ls: Seq<Seq<char>>, j: int) -> Option<int>
    decreases ls.len() - j,
{
    if j < 0 || j >= ls.len() {
        None
    } else if spec_is_code_line(ls[j]) {
        Some(j)
    } else {
        code_after(ls, j + 1)
    }
}

/// The index of the last code line before `j`.
pub open spec fn code_before(ls: Seq<Seq<char>>, j: int) -> Option<int>
    decreases j,
{
    if j <= 0 || j > ls.len() {
        None
    } else if spec_is_code_line(ls[j - 1]) {
        Some(j - 1)
    } else {
        code_before(ls, j - 1)
    }
}

/// The code line a comment at index `i` is compared with: the nearest one
/// below it, else the nearest one above it.
pub open spec fn adjacent_code(ls: Seq<Seq<char>>, i: int) -> Option<int> {
    match code_after(ls, i + 1) {
        Some(j) => Some(j),
        None => code_before(ls, i),
    }
}

/// The confidence and description of the match for line `i`, if the line is
/// a trivial comment: a plain (not doc) comment next to code whose tokens are
/// all stop words, or at least four fifths of which occur in that code.
/// Certainty 0.85 when all of them occur, 0.70 otherwise.
pub open spec fn trivial_verdict(ls: Seq<Seq<char>>, i: int) -> Option<(u32, Seq<char>)> {
    let line = ls[i];
    if !spec_is_comment_line(line) || spec_is_doc_comment_line(line) {
        None
    } else {
        match adjacent_code(ls, i) {
            None => None,
            Some(j) => {
                let ct = comment_tokens(spec_strip_comment_prefix(line));
                if ct.len() == 0 {
                    Some((8500u32, "Trivial comment (stop words only)."@))
                } else {
                    let ov = overlap_count(ct, code_tokens(ls[j]));
                    if 5 * ov >= 4 * ct.len() {
                        Some(
                            (
                                if ov == ct.len() {
                                    8500u32
                                } else {
                                    7000u32
                                },
                                "Trivial comment restates code."@,
                            ),
                        )
                    } else {
                        None
                    }
                }
            },
        }
    }
}

/// Where line `k` ends together with its line break: where the next line
/// starts, or the end of the text for the last line.
pub open spec fn line_end_with_break(b: Seq<u8>, k: int) -> int {
    if k + 1 < line_ranges(b).len() {
        line_ranges(b)[k + 1].0
    } else {
        b.len() as int
    }
}

/// The match for trivial comment line `k`: the line with its line break.
pub open spec fn trivial_view(b: Seq<u8>, k: int, confidence: u32, description: Seq<char>) -> MatchView {
    let off = line_ranges(b)[k].0;
    MatchView {
        rule_id: "trivial-comment"@,
        category: Category::Code,
        severity: Severity::Warn,
        confidence,
        start: off,
        end: line_end_with_break(b, k),
        line: line_col_at(b, off).0,
        col: line_col_at(b, off).1,
        original: line_texts(b)[k],
        suggestion: Seq::empty(),
        kind: KindView::DeleteLine,
        description,
    }
}

/// The matches for the first `n` lines of `b`, in line order.
pub open spec fn trivial_views(b: Seq<u8>, n: int) -> Seq<MatchView>
    decreases n,
{
    if n <= 0 {
        seq![]
    } else {
        let prev = trivial_views(b, n - 1);
        match trivial_verdict(line_texts(b), n - 1) {
            Some((c, d)) => prev.push(trivial_view(b, n - 1, c, d)),
            None => prev,
        }
    }
}

/// Whether a line holds code.
fn is_code_line(line: &str) -> (r: bool)
    ensures
        r == spec_is_code_line(line@),
{
    let cs = chars_of(line);
    let (a, z) = trim_chars(&cs);
    a < z && !is_comment_line(line)
}

/// The index of the code line a comment at `i` is compared with.
fn adjacent(code: &Vec<bool>, i: usize, ghost_lines: Ghost<Seq<Seq<char>>>) -> (r: Option<usize>)
    requires
        i < code@.len(),
        ghost_lines@.len() == code@.len(),
        forall|k: int| 0 <= k < code@.len() ==> code@[k] == spec_is_code_line(ghost_lines@[k]),
    ensures
        adjacent_code(ghost_lines@, i as int) == (match r {
            Some(j) => Some(j as int),
            None => None,
        }),
        r matches Some(j) ==> j < code@.len(),
{
    let ghost ls = ghost_lines@;
    let n = code.len();
    let mut j: usize = i + 1;
    while j < n
        invariant
            i < j <= code@.len(),
            n == code@.len(),
            ls == ghost_lines@,
            ls.len() == code@.len(),
            forall|k: int| 0 <= k < code@.len() ==> code@[k] == spec_is_code_line(ls[k]),
            code_after(ls, i + 1) == code_after(ls, j as int),
        decreases code@.len() - j,
    {
        assert(code@[j as int] == spec_is_code_line(ls[j as int]));
        if code[j] {
            return Some(j);
        }
        j = j + 1;
    }
    let mut j: usize = i;
    while j > 0
        invariant
            j <= i < code@.len(),
            ls == ghost_lines@,
            ls.len() == code@.len(),
            forall|k: int| 0 <= k < code@.len() ==> code@[k] == spec_is_code_line(ls[k]),
            code_after(ls, i + 1) is None,
            code_before(ls, i as int) == code_before(ls, j as int),
        decreases j,
    {
        assert(code@[j - 1] == spec_is_code_line(ls[j - 1]));
        if code[j - 1] {
            return Some(j - 1);
        }
        j = j - 1;
    }
    None
}

/// The verdict for line `i`, given every line and which lines hold code.
fn verdict(lines: &Vec<&str>, code: &Vec<bool>, i: usize) -> (r: Option<(u32, &'static str)>)
    requires
        i < lines@.len(),
        code@.len() == lines@.len(),
        forall|k: int| 0 <= k < code@.len() ==> code@[k] == spec_is_code_line(lines@[k]@),
    ensures
        match r {
            Some((c, d)) => trivial_verdict(strs_view(lines@), i as int) == Some((c, d@)),
            None => trivial_verdict(strs_view(lines@), i as int) is None,
        },
{
    let ghost ls = strs_view(lines@);
    let line: &str = lines[i];
    assert(ls[i as int] == line@);
    if !is_comment_line(line) || is_doc_comment_line(line) {
        return None;
    }
    let adj = adjacent(code, i, Ghost(ls));
    match adj {
        None => None,
        Some(j) => {
            let ct = tokenize_comment(strip_comment_prefix(line));
            assert(ls[j as int] == lines@[j as int]@);
            if ct.len() == 0 {
                Some((8500u32, "Trivial comment (stop words only)."))
            } else {
                let kt = tokenize_code(lines[j]);
                let ov = count_overlap(&ct, &kt);
                if (ov as u128) * 5 >= (ct.len() as u128) * 4 {
                    let conf: u32 = if ov == ct.len() {
                        8500
                    } else {
                        7000
                    };
                    Some((conf, "Trivial comment restates code."))
                } else {
                    None
                }
            }
        },
    }
}

/// Comments that restate the code next to them.
pub struct TrivialCommentRule;

impl TrivialCommentRule {
    /// The matches of the rule on a text: one per trivial comment line, in
    /// line order.
    pub open spec fn spec_check(content: Seq<char>) -> Seq<MatchView> {
        let b = encode_utf8(content);
        trivial_views(b, line_ranges(b).len() as int)
    }

    /// The rule's identifier.
    pub fn id(&self) -> (r: &'static str)
        ensures
            r@ == "trivial-comment"@,
    {
        "trivial-comment"
    }

    /// The rule's category.
    pub fn category(&self) -> (r: Category)
        ensures
            r == Category::Code,
    {
        Category::Code
    }

    /// The file types the rule applies to.
    pub fn file_type_filter(&self) -> (r: FileTypeFilter)
        ensures
            r == FileTypeFilter::CodeOnly,
    {
        FileTypeFilter::CodeOnly
    }

    /// One line deletion per trivial comment.
    pub fn check(&self, content: &str, _comment_spans: Option<&[Span]>) -> (r: Vec<Match>)
        requires
            content.spec_bytes().len() < usize::MAX,
        ensures
            views(r@) == Self::spec_check(content@),
    {
        let ghost b = content.spec_bytes();
        let rs = lines_of(content);
        let n = rs.len();
        let mut lines: Vec<&str> = Vec::new();
        let mut code: Vec<bool> = Vec::new();
        let mut i: usize = 0;
        while i < n
            invariant
                n == rs@.len() == line_ranges(b).len(),
                b == content.spec_bytes(),
                ranges_ok(b, rs@),
                forall|k: int|
                    0 <= k < rs@.len() ==> rs@[k].0 as int == line_ranges(b)[k].0 && rs@[k].1 as int
                        == line_ranges(b)[k].1,
                i <= n,
                lines@.len() == i,
                code@.len() == i,
                forall|k: int| 0 <= k < i ==> lines@[k]@ == line_texts(b)[k],
                forall|k: int| 0 <= k < i ==> code@[k] == spec_is_code_line(lines@[k]@),
            decreases n - i,
        {
            let (s, e) = rs[i];
            let line = substring(content, s, e);
            let c = is_code_line(line);
            lines.push(line);
            code.push(c);
            i = i + 1;
        }
        assert(strs_view(lines@) =~= line_texts(b));
        let mut out: Vec<Match> = Vec::new();
        let mut i: usize = 0;
        while i < n
            invariant
                n == rs@.len() == line_ranges(b).len() == lines@.len() == code@.len(),
                b == content.spec_bytes(),
                ranges_ok(b, rs@),
                forall|k: int|
                    0 <= k < rs@.len() ==> rs@[k].0 as int == line_ranges(b)[k].0 && rs@[k].1 as int
                        == line_ranges(b)[k].1,
                strs_view(lines@) == line_texts(b),
                forall|k: int| 0 <= k < n ==> code@[k] == spec_is_code_line(lines@[k]@),
                b.len() < usize::MAX,
                i <= n,
                views(out@) == trivial_views(b, i as int),
            decreases n - i,
        {
            let off = rs[i].0;
            let end = if i + 1 < n {
                rs[i + 1].0
            } else {
                content.len()
            };
            assert(end as int == line_end_with_break(b, i as int));
            assert(off as int == line_ranges(b)[i as int].0);
            let v = verdict(&lines, &code, i);
            let ghost before = out@;
            match v {
                Some((conf, desc)) => {
                    let (line_no, col) = line_col_from_offset(content, off);
                    let m = Match {
                        rule_id: String::from_str("trivial-comment"),
                        category: Category::Code,
                        severity: Severity::Warn,
                        confidence: conf,
                        byte_range: Range { start: off, end },
                        line: line_no,
                        col,
                        original: String::from_str(lines[i]),
                        suggestion: String::new(),
                        kind: MatchKind::DeleteLine,
                        description: String::from_str(desc),
                    };
                    proof {
                        reveal_strlit("trivial-comment");
                    }
                    out.push(m);
                    assert(views(out@) =~= views(before).push(m@));
                },
                None => {},
            }
            i = i + 1;
        }
        out
    }
}

// ---------------------------------------------------------------------------
// Filler docstrings
// ---------------------------------------------------------------------------

/// A double or a single quote.
pub open spec fn is_quote(c: char) -> bool {
    c == '"' || c == '\''
}

/// The index of the first character at or after `i` that is not a quote.
pub open spec fn skip_quotes(cs: Seq<char>, i: int) -> int
    decreases cs.len() - i,
{
    if 0 <= i < cs.len() && is_quote(cs[i]) {
        skip_quotes(cs, i + 1)
    } else {
        i
    }
}

/// The index just past the last character before `z` (and not before `a`)
/// that is not a quote.
pub open spec fn back_quotes(cs: Seq<char>, a: int, z: int) -> int
    decreases z - a,
{
    if a < z && is_quote(cs[z - 1]) {
        back_quotes(cs, a, z - 1)
    } else {
        z
    }
}

/// `str::trim_matches` with quotes: the text without leading and trailing
/// quotes.
pub open spec fn trim_quotes(cs: Seq<char>) -> Seq<char> {
    let a = skip_quotes(cs, 0);
    cs.subrange(a, back_quotes(cs, a, cs.len() as int))
}

/// The pattern of a docstring that only restates the signature.
pub open spec fn generic_docstring_pattern() -> Seq<char> {
    r"(?im)^\s*(This (?:function|method|class|struct) [a-zA-Z0-9_\s]+)\s*$|^\s*(Parameters:\s*input\.?\s*Returns:\s*output\.?)\s*$"@
}

/// Whether a docstring's text only restates the signature.
pub open spec fn spec_is_generic(t: Seq<char>) -> bool {
    match regex_find_spans(generic_docstring_pattern(), t) {
        Some(v) => v.len() > 0,
        None => false,
    }
}

/// The languages whose docstrings the rule reads.
#[derive(Clone, Copy)]
pub enum DocstringStyle {
    /// Triple-quoted strings.
    Python,
    /// Runs of `///` lines.
    Rust,
    /// `/** ... */` blocks.
    Js,
}

/// The pattern that finds docstrings of a style.
pub open spec fn docstring_pattern(style: DocstringStyle) -> Seq<char> {
    match style {
        DocstringStyle::Python => r#"(?s)"""(.*?)"""|'''(.*?)'''"#@,
        DocstringStyle::Rust => r"(?m)^(?:[ \t]*///.*(?:\n|$))+"@,
        DocstringStyle::Js => r"(?sm)^[ \t]*/\*\*.*?\*/"@,
    }
}

/// The text of a docstring without its markers, trimmed.
pub open spec fn docstring_inner(style: DocstringStyle, t: Seq<char>) -> Seq<char> {
    match style {
        DocstringStyle::Python => trimmed(trim_quotes(t)),
        DocstringStyle::Rust => trimmed(replace_all(t, "///"@, Seq::empty())),
        DocstringStyle::Js => trimmed(
            replace_all(
                replace_all(replace_all(t, "/**"@, Seq::empty()), "*/"@, Seq::empty()),
                "*"@,
                Seq::empty(),
            ),
        ),
    }
}

/// The template of a filler-docstring match.
pub open spec fn docstring_template() -> TemplateView {
    TemplateView {
        rule_id: "docstring-filler"@,
        category: Category::Code,
        severity: Severity::Warn,
        confidence: 8000,
        kind: KindView::DeleteBlock,
        suggestion: Seq::empty(),
        description: "Filler docstring restates the function signature without adding information"@,
    }
}

/// The matches among the docstrings found at `spans`: those whose text is
/// generic.
pub open spec fn docstring_views(b: Seq<u8>, spans: Seq<(usize, usize)>, style: DocstringStyle) -> Seq<
    MatchView,
>
    decreases spans.len(),
{
    if spans.len() == 0 {
        seq![]
    } else {
        let prev = docstring_views(b, spans.drop_last(), style);
        let s = spans.last().0 as int;
        let e = spans.last().1 as int;
        if spec_is_generic(docstring_inner(style, text_of(b, s, e))) {
            prev.push(span_view(b, s, e, docstring_template()))
        } else {
            prev
        }
    }
}

/// The matches for the docstrings of one style in `content`.
pub open spec fn style_views(content: Seq<char>, style: DocstringStyle) -> Seq<MatchView> {
    match regex_find_spans(docstring_pattern(style), content) {
        Some(v) => docstring_views(encode_utf8(content), v, style),
        None => seq![],
    }
}

/// The text without leading and trailing quotes.
fn trim_quotes_of(s: &str) -> (r: &str)
    ensures
        r@ == trim_quotes(s@),
{
    let cs = chars_of(s);
    let offs = char_offsets(s);
    let mut a: usize = 0;
    while a < cs.len() && (cs[a] == '"' || cs[a] == '\'')
        invariant
            a <= cs@.len(),
            skip_quotes(cs@, 0) == skip_quotes(cs@, a as int),
        decreases cs@.len() - a,
    {
        a = a + 1;
    }
    let mut z: usize = cs.len();
    while z > a && (cs[z - 1] == '"' || cs[z - 1] == '\'')
        invariant
            a <= z <= cs@.len(),
            back_quotes(cs@, a as int, cs@.len() as int) == back_quotes(cs@, a as int, z as int),
        decreases z - a,
    {
        z = z - 1;
    }
    char_slice(s, &offs, a, z)
}

/// Whether a docstring's text only restates the signature.
fn is_generic(t: &str) -> (r: bool)
    ensures
        r == spec_is_generic(t@),
{
    match regex_find(
        r"(?im)^\s*(This (?:function|method|class|struct) [a-zA-Z0-9_\s]+)\s*$|^\s*(Parameters:\s*input\.?\s*Returns:\s*output\.?)\s*$",
        t,
    ) {
        Some(v) => v.len() > 0,
        None => false,
    }
}

/// Whether the docstring `t` of the given style only restates the signature.
fn docstring_is_generic(t: &str, style: DocstringStyle) -> (r: bool)
    ensures
        r == spec_is_generic(docstring_inner(style, t@)),
{
    match style {
        DocstringStyle::Python => is_generic(trim_str(trim_quotes_of(t))),
        DocstringStyle::Rust => {
            proof {
                reveal_strlit("///");
                reveal_strlit("");
                assert(""@ =~= Seq::<char>::empty());
            }
            let inner = replace_all_of(t, "///", "");
            is_generic(trim_str(inner.as_str()))
        },
        DocstringStyle::Js => {
            proof {
                reveal_strlit("/**");
                reveal_strlit("*/");
                reveal_strlit("*");
                reveal_strlit("");
                assert(""@ =~= Seq::<char>::empty());
            }
            let a = replace_all_of(t, "/**", "");
            let b = replace_all_of(a.as_str(), "*/", "");
            let c = replace_all_of(b.as_str(), "*", "");
            is_generic(trim_str(c.as_str()))
        },
    }
}

/// Appends the matches for the docstrings of one style.
fn push_docstrings(
    out: &mut Vec<Match>,
    content: &str,
    pattern: &str,
    style: DocstringStyle,
    t: &Template,
)
    requires
        content.spec_bytes().len() < usize::MAX,
        pattern@ == docstring_pattern(style),
        t@ == docstring_template(),
    ensures
        views(final(out)@) == views(old(out)@) + style_views(content@, style),
{
    let ghost start = views(out@);
    let ghost b = content.spec_bytes();
    if let Some(v) = regex_find(pattern, content) {
        let mut i: usize = 0;
        while i < v.len()
            invariant
                i <= v@.len(),
                b == content.spec_bytes(),
                b.len() < usize::MAX,
                crate::bindings::spans_in_text(b, v@),
                t@ == docstring_template(),
                views(out@) == start + docstring_views(b, v@.take(i as int), style),
            decreases v@.len() - i,
        {
            let (s, e) = v[i];
            assert(v@[i as int].0 <= v@[i as int].1);
            proof {
                assert(v@.take(i + 1).drop_last() =~= v@.take(i as int));
                assert(v@.take(i + 1).last() == v@[i as int]);
            }
            let text = substring(content, s, e);
            if docstring_is_generic(text, style) {
                let m = span_match(content, s, e, t);
                let ghost before = out@;
                out.push(m);
                assert(views(out@) =~= views(before).push(m@));
            }
            i = i + 1;
        }
        assert(v@.take(v@.len() as int) == v@);
    } else {
        assert(start + Seq::<MatchView>::empty() == start);
    }
}

/// Docstrings that restate the signature of what they document.
#[derive(Default)]
pub struct DocstringFillerRule;

impl DocstringFillerRule {
    /// A new rule.
    pub fn new() -> Self {
        DocstringFillerRule
    }

    /// The matches of the rule: generic Python docstrings, then generic runs
    /// of `///` lines, then generic `/** */` blocks, each in text order.
    pub open spec fn spec_check(content: Seq<char>) -> Seq<MatchView> {
        style_views(content, DocstringStyle::Python) + style_views(content, DocstringStyle::Rust)
            + style_views(content, DocstringStyle::Js)
    }

    /// The rule's identifier.
    pub fn id(&self) -> (r: &'static str)
        ensures
            r@ == "docstring-filler"@,
    {
        "docstring-filler"
    }

    /// The rule's category.
    pub fn category(&self) -> (r: Category)
        ensures
            r == Category::Code,
    {
        Category::Code
    }

    /// The file types the rule applies to.
    pub fn file_type_filter(&self) -> (r: FileTypeFilter)
        ensures
            r == FileTypeFilter::CodeOnly,
    {
        FileTypeFilter::CodeOnly
    }

    /// One block deletion per filler docstring.
    pub fn check(&self, content: &str, _comment_spans: Option<&[Span]>) -> (r: Vec<Match>)
        requires
            content.spec_bytes().len() < usize::MAX,
        ensures
            views(r@) == Self::spec_check(content@),
    {
        proof {
            reveal_strlit("");
            assert(""@ =~= Seq::<char>::empty());
        }
        let t = template(
            "docstring-filler",
            Category::Code,
            Severity::Warn,
            8000,
            MatchKind::DeleteBlock,
            "",
            "Filler docstring restates the function signature without adding information",
        );
        let mut out: Vec<Match> = Vec::new();
        assert(views(out@) =~= Seq::<MatchView>::empty());
        push_docstrings(&mut out, content, r#"(?s)"""(.*?)"""|'''(.*?)'''"#, DocstringStyle::Python, &t);
        push_docstrings(&mut out, content, r"(?m)^(?:[ \t]*///.*(?:\n|$))+", DocstringStyle::Rust, &t);
        push_docstrings(&mut out, content, r"(?sm)^[ \t]*/\*\*.*?\*/", DocstringStyle::Js, &t);
        assert(views(out@) =~= Self::spec_check(content@));
        out
    }
}

} // verus!
