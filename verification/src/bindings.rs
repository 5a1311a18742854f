//! Calls into outside crates and into the parts of std that vstd does not
//! specify. Each item states what the library relies on; nothing here is
//! proved.

use vstd::prelude::*;
use vstd::string::*;
use crate::text::boundary;

verus! {

/// `memchr::memchr(needle, haystack)`: the index of the first byte of
/// `haystack` equal to `needle`, or `None` when there is none.
#[verifier::external_body]
pub(crate) fn find_byte(needle: u8, haystack: &[u8]) -> (r: Option<usize>)
    ensures
        r matches Some(i) ==> i < haystack@.len() && haystack@[i as int] == needle && forall|j: int|
            0 <= j < i ==> haystack@[j] != needle,
        r is None ==> forall|j: int| 0 <= j < haystack@.len() ==> haystack@[j] != needle,
{
    memchr::memchr(needle, haystack)
}


/// Byte ranges inside `b` whose ends are character boundaries.
pub open spec fn spans_in_text(b: Seq<u8>, spans: Seq<(usize, usize)>) -> bool {
    forall|k: int|
        0 <= k < spans.len() ==> #[trigger] spans[k].0 <= spans[k].1 <= b.len() && boundary(
            b,
            spans[k].0 as int,
        ) && boundary(b, spans[k].1 as int)
}

/// What `regex::Regex::new(pattern)` reports for a pattern it rejects: the
/// text of the error; `None` when the pattern compiles.
pub uninterp spec fn regex_error_text(pattern: Seq<char>) -> Option<Seq<char>>;

/// The byte ranges of the successive non-overlapping matches that
/// `regex::Regex::find_iter` yields on `haystack` for the compiled `pattern`;
/// `None` when the pattern does not compile.
pub uninterp spec fn regex_find_spans(pattern: Seq<char>, haystack: Seq<char>) -> Option<
    Seq<(usize, usize)>,
>;

/// `regex::Regex::new(pattern)` and, on failure, the error's display text.
#[verifier::external_body]
pub(crate) fn regex_error(pattern: &str) -> (r: Option<String>)
    ensures
        match r {
            Some(s) => regex_error_text(pattern@) == Some(s@),
            None => regex_error_text(pattern@) is None,
        },
{
    match regex::Regex::new(pattern) {
        Ok(_) => None,
        Err(e) => Some(e.to_string()),
    }
}

/// `regex::Regex::new(pattern)` followed by `find_iter(haystack)`: the byte
/// ranges of the matches, which lie inside the haystack and start and end on
/// character boundaries; `None` exactly when the pattern does not compile.
#[verifier::external_body]
pub(crate) fn regex_find(pattern: &str, haystack: &str) -> (r: Option<Vec<(usize, usize)>>)
    ensures
        match r {
            Some(v) => regex_find_spans(pattern@, haystack@) == Some(v@),
            None => regex_find_spans(pattern@, haystack@) is None,
        },
        r is None <==> regex_error_text(pattern@) is Some,
        r matches Some(v) ==> spans_in_text(haystack.spec_bytes(), v@),
{
    match regex::Regex::new(pattern) {
        Ok(re) => Some(re.find_iter(haystack).map(|m| (m.start(), m.end())).collect()),
        Err(_) => None,
    }
}


/// `char::from_u32(cp)`, which yields the character with scalar value `cp`
/// for every Unicode scalar value.
#[verifier::external_body]
pub(crate) fn char_from_scalar(cp: u32) -> (r: char)
    requires
        vstd::utf8::is_scalar(cp),
    ensures
        r as u32 == cp,
{
    char::from_u32(cp).unwrap()
}


/// What `str::to_lowercase` makes of a text (Unicode lowercase mapping).
pub uninterp spec fn lowercase_text(s: Seq<char>) -> Seq<char>;

/// What `str::to_uppercase` makes of a text (Unicode uppercase mapping).
pub uninterp spec fn uppercase_text(s: Seq<char>) -> Seq<char>;

/// Whether `char::is_uppercase` holds of a character (Unicode Uppercase).
pub uninterp spec fn uppercase_char(c: char) -> bool;

/// Whether `char::is_lowercase` holds of a character (Unicode Lowercase).
pub uninterp spec fn lowercase_char(c: char) -> bool;

/// `str::to_lowercase`.
#[verifier::external_body]
pub(crate) fn to_lowercase(s: &str) -> (r: String)
    ensures
        r@ == lowercase_text(s@),
{
    s.to_lowercase()
}

/// `str::to_uppercase`.
#[verifier::external_body]
pub(crate) fn to_uppercase(s: &str) -> (r: String)
    ensures
        r@ == uppercase_text(s@),
{
    s.to_uppercase()
}

/// `char::is_uppercase`.
#[verifier::external_body]
pub(crate) fn is_uppercase(c: char) -> (r: bool)
    ensures
        r == uppercase_char(c),
{
    c.is_uppercase()
}

/// `char::is_lowercase`.
#[verifier::external_body]
pub(crate) fn is_lowercase(c: char) -> (r: bool)
    ensures
        r == lowercase_char(c),
{
    c.is_lowercase()
}


/// The pieces of `haystack` between the matches of `pattern`, as
/// `regex::Regex::split` yields them; `None` when the pattern does not compile.
pub uninterp spec fn regex_split_pieces(pattern: Seq<char>, haystack: Seq<char>) -> Option<
    Seq<Seq<char>>,
>;

/// `regex::Regex::new(pattern)` followed by `split(haystack)`: the pieces
/// between matches; `None` exactly when the pattern does not compile.
#[verifier::external_body]
pub(crate) fn regex_split(pattern: &str, haystack: &str) -> (r: Option<Vec<String>>)
    ensures
        match r {
            Some(v) => regex_split_pieces(pattern@, haystack@) == Some(
                Seq::new(v@.len(), |k: int| v@[k]@),
            ),
            None => regex_split_pieces(pattern@, haystack@) is None,
        },
        r is None <==> regex_error_text(pattern@) is Some,
{
    match regex::Regex::new(pattern) {
        Ok(re) => Some(re.split(haystack).map(|p| p.to_string()).collect()),
        Err(_) => None,
    }
}


/// Capture-group ranges inside `b`: each present group is a byte range whose
/// ends are character boundaries.
pub open spec fn groups_in_text(b: Seq<u8>, groups: Seq<Option<(usize, usize)>>) -> bool {
    forall|g: int|
        0 <= g < groups.len() ==> (#[trigger] groups[g] matches Some(r) ==> r.0 <= r.1 <= b.len()
            && boundary(b, r.0 as int) && boundary(b, r.1 as int))
}

/// For each successive match that `regex::Regex::captures_iter` yields on
/// `haystack`, the byte ranges of its capture groups (group 0 is the whole
/// match; `None` for a group that took no part); `None` when the pattern does
/// not compile.
pub uninterp spec fn regex_all_captures(pattern: Seq<char>, haystack: Seq<char>) -> Option<
    Seq<Seq<Option<(usize, usize)>>>,
>;

/// `regex::Regex::new(pattern)` followed by `captures_iter(haystack)`: the
/// group ranges of every match, which lie inside the haystack on character
/// boundaries; `None` exactly when the pattern does not compile.
#[verifier::external_body]
pub(crate) fn regex_captures_all(pattern: &str, haystack: &str) -> (r: Option<Vec<Vec<Option<(usize, usize)>>>>)
    ensures
        match r {
            Some(v) => regex_all_captures(pattern@, haystack@) == Some(
                Seq::new(v@.len(), |k: int| v@[k]@),
            ),
            None => regex_all_captures(pattern@, haystack@) is None,
        },
        r is None <==> regex_error_text(pattern@) is Some,
        r matches Some(v) ==> forall|k: int|
            0 <= k < v@.len() ==> groups_in_text(haystack.spec_bytes(), #[trigger] v@[k]@),
{
    match regex::Regex::new(pattern) {
        Ok(re) => Some(
            re.captures_iter(haystack).map(
                |c| c.iter().map(|g| g.map(|m| (m.start(), m.end()))).collect(),
            ).collect(),
        ),
        Err(_) => None,
    }
}

/// The byte ranges of the capture groups of the first match that
/// `regex::Regex::captures` finds in `haystack` (`None` inside when nothing
/// matches); `None` when the pattern does not compile.
pub uninterp spec fn regex_first_captures(pattern: Seq<char>, haystack: Seq<char>) -> Option<
    Option<Seq<Option<(usize, usize)>>>,
>;

/// `regex::Regex::new(pattern)` followed by `captures(haystack)`: the group
/// ranges of the first match, inside the haystack on character boundaries;
/// `None` exactly when the pattern does not compile.
#[verifier::external_body]
pub(crate) fn regex_captures_first(pattern: &str, haystack: &str) -> (r: Option<Option<Vec<Option<(usize, usize)>>>>)
    ensures
        match r {
            Some(Some(v)) => regex_first_captures(pattern@, haystack@) == Some(Some(v@)),
            Some(None) => regex_first_captures(pattern@, haystack@) == Some(
                None::<Seq<Option<(usize, usize)>>>,
            ),
            None => regex_first_captures(pattern@, haystack@) is None,
        },
        r is None <==> regex_error_text(pattern@) is Some,
        r matches Some(Some(v)) ==> groups_in_text(haystack.spec_bytes(), v@),
{
    match regex::Regex::new(pattern) {
        Ok(re) => Some(
            re.captures(haystack).map(
                |c| c.iter().map(|g| g.map(|m| (m.start(), m.end()))).collect(),
            ),
        ),
        Err(_) => None,
    }
}

/// A character that `regex::escape` escapes: a meta character of the
/// regex syntax.
pub open spec fn escaped_by_regex(c: char) -> bool {
    c == '\\' || c == '.' || c == '+' || c == '*' || c == '?' || c == '(' || c == ')' || c == '|'
        || c == '[' || c == ']' || c == '{' || c == '}' || c == '^' || c == '$' || c == '#' || c
        == '&' || c == '-' || c == '~'
}

/// `regex::escape(text)`: the text with a backslash before every meta
/// character.
pub open spec fn regex_escaped(text: Seq<char>) -> Seq<char>
    decreases text.len(),
{
    if text.len() == 0 {
        seq![]
    } else {
        regex_escaped(text.drop_last()) + if escaped_by_regex(text.last()) {
            seq!['\\', text.last()]
        } else {
            seq![text.last()]
        }
    }
}

/// `regex::escape`: every meta character of the text preceded by a
/// backslash.
#[verifier::external_body]
pub(crate) fn regex_escape(text: &str) -> (r: String)
    ensures
        r@ == regex_escaped(text@),
{
    regex::escape(text)
}


/// What `globset::Glob::new(glob)` reports for a glob it rejects: the text
/// of the error; `None` when the glob compiles.
pub uninterp spec fn glob_error_text(glob: Seq<char>) -> Option<Seq<char>>;

/// Whether the glob, compiled, matches the path.
pub uninterp spec fn glob_accepts(glob: Seq<char>, path: Seq<char>) -> bool;

/// What `globset::GlobSetBuilder::build` reports for a builder holding these
/// globs (each of which compiles) when it cannot build the set, such as a
/// matcher over the glob library's size limit: the text of the error; `None`
/// when the set is built.
pub uninterp spec fn glob_set_error_text(globs: Seq<Seq<char>>) -> Option<Seq<char>>;

/// The globs added to a builder, in the order added.
pub uninterp spec fn builder_globs(b: globset::GlobSetBuilder) -> Seq<Seq<char>>;

/// The globs a set was built from.
pub uninterp spec fn set_globs(s: globset::GlobSet) -> Seq<Seq<char>>;

/// `globset::GlobSetBuilder`, a list of compiled globs waiting to be built
/// into a set.
#[verifier::external_type_specification]
#[verifier::external_body]
pub struct ExGlobSetBuilder(globset::GlobSetBuilder);

/// `globset::GlobSet`, a matcher for a list of globs.
#[verifier::external_type_specification]
#[verifier::external_body]
pub struct ExGlobSet(globset::GlobSet);

/// `globset::GlobSetBuilder::new`: a builder holding no glob.
#[verifier::external_body]
pub(crate) fn new_glob_builder() -> (r: globset::GlobSetBuilder)
    ensures
        builder_globs(r) == Seq::<Seq<char>>::empty(),
{
    globset::GlobSetBuilder::new()
}

/// `globset::Glob::new(glob)`, then `GlobSetBuilder::add` with the compiled
/// glob: the glob is added when it compiles; otherwise the builder is left
/// as it was and the error's display text comes back.
#[verifier::external_body]
pub(crate) fn builder_add(b: &mut globset::GlobSetBuilder, glob: &str) -> (r: Option<String>)
    ensures
        match r {
            None => glob_error_text(glob@) is None && builder_globs(*final(b)) == builder_globs(
                *old(b),
            ).push(glob@),
            Some(e) => glob_error_text(glob@) == Some(e@) && builder_globs(*final(b)) == builder_globs(
                *old(b),
            ),
        },
{
    match globset::Glob::new(glob) {
        Ok(g) => {
            b.add(g);
            None
        },
        Err(e) => Some(e.to_string()),
    }
}

/// `globset::GlobSetBuilder::build`: the set of the builder's globs, or the
/// error's display text.
#[verifier::external_body]
pub(crate) fn build_glob_set(b: &globset::GlobSetBuilder) -> (r: Result<globset::GlobSet, String>)
    ensures
        match r {
            Ok(s) => glob_set_error_text(builder_globs(*b)) is None && set_globs(s) == builder_globs(
                *b,
            ),
            Err(e) => glob_set_error_text(builder_globs(*b)) == Some(e@),
        },
{
    match b.build() {
        Ok(s) => Ok(s),
        Err(e) => Err(e.to_string()),
    }
}

/// `globset::GlobSet::is_match(path)`: whether some glob of the set matches
/// the path.
#[verifier::external_body]
pub(crate) fn set_is_match(s: &globset::GlobSet, path: &str) -> (r: bool)
    ensures
        r == (exists|k: int|
            0 <= k < set_globs(*s).len() && glob_accepts(#[trigger] set_globs(*s)[k], path@)),
{
    s.is_match(path)
}

/// The unified diff that `similar` writes for two texts compared line by
/// line, with `radius` lines of context and the two file headers.
pub uninterp spec fn unified_diff_text(
    old: Seq<char>,
    new: Seq<char>,
    radius: int,
    old_header: Seq<char>,
    new_header: Seq<char>,
) -> Seq<char>;

/// `similar::TextDiff::from_lines(old, new)`, then `unified_diff()` with
/// `context_radius(radius)` and `header(old_header, new_header)`, written
/// out. The diff has no hunk, and so no text, when the texts are equal.
#[verifier::external_body]
pub(crate) fn unified_diff(old: &str, new: &str, radius: usize, old_header: &str, new_header: &str) -> (r:
    String)
    ensures
        r@ == unified_diff_text(old@, new@, radius as int, old_header@, new_header@),
        old@ == new@ ==> r@.len() == 0,
{
    similar::TextDiff::from_lines(old, new).unified_diff().context_radius(radius).header(
        old_header,
        new_header,
    ).to_string()
}

} // verus!
