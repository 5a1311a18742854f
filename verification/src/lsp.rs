//! What the language server reports on a document: each match as a
//! diagnostic with its range in LSP positions (0-indexed lines, columns in
//! UTF-16 code units), a severity and the rule that raised it. The JSON-RPC
//! transport is left to the caller.

use vstd::prelude::*;
use vstd::string::*;
use vstd::utf8::*;
use crate::detector::{detect_file_type, opt_view, spec_detect};
use crate::engine::{process_ok, spec_process, try_process_file};
use crate::rules::registry::Rule;
use crate::rules::{views, KindView, Match, MatchKind, MatchView};
use crate::text::{char_offsets, char_slice, chars_of, contains_seq, has_seq, starts_with};

verus! {

/// The number of UTF-16 code units of a character.
pub open spec fn utf16_len(c: char) -> int {
    if (c as u32) < 0x10000 {
        1
    } else {
        2
    }
}

/// The LSP position after the first `n` characters: newlines counted, and
/// UTF-16 units since the last newline.
pub open spec fn position_after(cs: Seq<char>, n: int) -> (int, int)
    decreases n,
{
    if n <= 0 || n > cs.len() {
        (0, 0)
    } else {
        let (l, c) = position_after(cs, n - 1);
        if cs[n - 1] == '\n' {
            (l + 1, 0)
        } else {
            (l, c + utf16_len(cs[n - 1]))
        }
    }
}

/// The number of characters from index `k` on that start before byte `off`
/// (the characters do so up to some index, and none after it).
pub open spec fn chars_before(cs: Seq<char>, off: int, k: int) -> int
    decreases cs.len() - k,
{
    if k < 0 || k >= cs.len() || encode_utf8(cs.take(k)).len() >= off {
        k
    } else {
        chars_before(cs, off, k + 1)
    }
}

/// The LSP position of byte offset `off` (clamped to the text): the
/// position after the characters that start before it.
pub open spec fn lsp_position(cs: Seq<char>, off: int) -> (int, int) {
    let total = encode_utf8(cs).len() as int;
    let safe = if off < total {
        off
    } else {
        total
    };
    position_after(cs, chars_before(cs, safe, 0))
}

proof fn lemma_chars_before(cs: Seq<char>, off: int, k: int)
    requires
        0 <= k <= cs.len(),
    ensures
        k <= chars_before(cs, off, k) <= cs.len(),
    decreases cs.len() - k,
{
    if k < cs.len() && encode_utf8(cs.take(k)).len() < off {
        lemma_chars_before(cs, off, k + 1);
    }
}

/// The encoding of the first `k + 1` characters adds that of character `k`.
proof fn lemma_encode_step(cs: Seq<char>, k: int)
    requires
        0 <= k < cs.len(),
    ensures
        encode_utf8(cs.take(k + 1)).len() == encode_utf8(cs.take(k)).len() + encode_scalar(
            cs[k] as u32,
        ).len(),
        utf16_len(cs[k]) <= encode_scalar(cs[k] as u32).len(),
        cs[k] == '\n' ==> encode_scalar(cs[k] as u32).len() == 1,
{
    let pre = cs.take(k);
    let one = seq![cs[k]];
    assert(cs.take(k + 1) == pre + one);
    crate::text::lemma_encode_concat(pre, one);
    assert(one.drop_first() == Seq::<char>::empty());
    assert(encode_utf8(one) == encode_scalar(one[0] as u32) + encode_utf8(one.drop_first()));
}

/// The 0-indexed line and UTF-16 column of a byte offset (clamped to the
/// text), counting the characters that start before it.
pub fn byte_offset_to_lsp_position(content: &str, byte_offset: usize) -> (r: (usize, usize))
    ensures
        (r.0 as int, r.1 as int) == lsp_position(content@, byte_offset as int),
{
    let ghost cs = content@;
    let chars = chars_of(content);
    let offs = char_offsets(content);
    let total = content.as_bytes().len();
    let safe = if byte_offset < total {
        byte_offset
    } else {
        total
    };
    let mut line: usize = 0;
    let mut col: usize = 0;
    let mut k: usize = 0;
    proof {
        assert(cs.take(0) == Seq::<char>::empty());
        assert(encode_utf8(Seq::<char>::empty()) == Seq::<u8>::empty());
    }
    while k < chars.len() && offs[k] < safe
        invariant
            chars@ == cs,
            offs@.len() == cs.len() + 1,
            forall|j: int| 0 <= j <= cs.len() ==> offs@[j] as int == encode_utf8(cs.take(j)).len(),
            k <= cs.len(),
            chars_before(cs, safe as int, 0) == chars_before(cs, safe as int, k as int),
            (line as int, col as int) == position_after(cs, k as int),
            line + col <= offs@[k as int],
        decreases cs.len() - k,
    {
        proof {
            lemma_encode_step(cs, k as int);
            assert(offs@[k as int] as int == encode_utf8(cs.take(k as int)).len());
            assert(offs@[k + 1] as int == encode_utf8(cs.take(k + 1)).len());
            crate::text::lemma_char_range(cs, k + 1, cs.len() as int);
        }
        let c = chars[k];
        if c == '\n' {
            line = line + 1;
            col = 0;
        } else if (c as u32) < 0x10000 {
            col = col + 1;
        } else {
            col = col + 2;
        }
        k = k + 1;
    }
    proof {
        if k < cs.len() {
            assert(offs@[k as int] as int == encode_utf8(cs.take(k as int)).len());
        }
    }
    (line, col)
}

/// The severity of a diagnostic.
#[derive(Debug, Clone, Copy, PartialEq, Eq, Structural)]
pub enum DiagnosticLevel {
    Error,
    Warning,
}

/// A diagnostic on a document.
pub struct Diagnostic {
    pub start_line: usize,
    pub start_character: usize,
    pub end_line: usize,
    pub end_character: usize,
    pub severity: DiagnosticLevel,
    /// The rule id, as the diagnostic's code and source.
    pub code: String,
    pub message: String,
}

/// A flagged match is a warning; a fix with confidence of at least 0.85 is
/// an error; any other fix is a warning.
pub open spec fn level_of(m: MatchView) -> DiagnosticLevel {
    if m.kind is FlagOnly {
        DiagnosticLevel::Warning
    } else if m.confidence >= 8500 {
        DiagnosticLevel::Error
    } else {
        DiagnosticLevel::Warning
    }
}

/// The diagnostic that reports a match on a text.
pub open spec fn diagnostic_of(cs: Seq<char>, m: MatchView) -> (int, int, int, int, DiagnosticLevel, Seq<char>, Seq<char>) {
    let total = encode_utf8(cs).len() as int;
    let end = if m.end < total {
        m.end
    } else {
        total
    };
    let (sl, sc) = lsp_position(cs, m.start);
    let (el, ec) = lsp_position(cs, end);
    (sl, sc, el, ec, level_of(m), m.rule_id, m.description)
}

impl Diagnostic {
    /// The fields of the diagnostic.
    pub open spec fn fields(&self) -> (int, int, int, int, DiagnosticLevel, Seq<char>, Seq<char>) {
        (
            self.start_line as int,
            self.start_character as int,
            self.end_line as int,
            self.end_character as int,
            self.severity,
            self.code@,
            self.message@,
        )
    }
}

/// The diagnostic that reports a match: its range in LSP positions, its
/// severity, the rule as code and source, and the rule's explanation.
pub fn match_to_diagnostic(content: &str, m: &Match) -> (r: Diagnostic)
    ensures
        r.fields() == diagnostic_of(content@, m@),
{
    let (start_line, start_character) = byte_offset_to_lsp_position(content, m.byte_range.start);
    let total = content.as_bytes().len();
    let end = if m.byte_range.end < total {
        m.byte_range.end
    } else {
        total
    };
    let (end_line, end_character) = byte_offset_to_lsp_position(content, end);
    let severity = if matches!(m.kind, MatchKind::FlagOnly) {
        DiagnosticLevel::Warning
    } else if m.confidence >= 8500 {
        DiagnosticLevel::Error
    } else {
        DiagnosticLevel::Warning
    };
    Diagnostic {
        start_line,
        start_character,
        end_line,
        end_character,
        severity,
        code: m.rule_id.clone(),
        message: m.description.clone(),
    }
}

/// The index of the last `c` among the first `k` characters, if any.
pub open spec fn last_index_of(cs: Seq<char>, c: char, k: int) -> Option<int>
    decreases k,
{
    if k <= 0 || k > cs.len() {
        None
    } else if cs[k - 1] == c {
        Some(k - 1)
    } else {
        last_index_of(cs, c, k - 1)
    }
}

/// The text after the last `.` (all of it when there is none).
pub open spec fn after_last_dot(cs: Seq<char>) -> Seq<char> {
    match last_index_of(cs, '.', cs.len() as int) {
        Some(k) => cs.skip(k + 1),
        None => cs,
    }
}

proof fn lemma_last_index_of(cs: Seq<char>, c: char, k: int)
    requires
        0 <= k <= cs.len(),
    ensures
        last_index_of(cs, c, k) matches Some(j) ==> 0 <= j < k,
    decreases k,
{
    if k > 0 && cs[k - 1] != c {
        lemma_last_index_of(cs, c, k - 1);
    }
}

/// The text after the last `.` (all of it when there is none).
fn last_piece(s: &str) -> (r: &str)
    ensures
        r@ == after_last_dot(s@),
{
    let cs = chars_of(s);
    let offs = char_offsets(s);
    let mut k: usize = cs.len();
    while k > 0 && cs[k - 1] != '.'
        invariant
            cs@ == s@,
            k <= cs@.len(),
            last_index_of(s@, '.', s@.len() as int) == last_index_of(s@, '.', k as int),
        decreases k,
    {
        k = k - 1;
    }
    if k == 0 {
        s
    } else {
        let r = char_slice(s, &offs, k, cs.len());
        assert(r@ == s@.skip(k as int));
        r
    }
}

/// A document's path: its URI without a leading `file://`.
pub open spec fn uri_path(uri: Seq<char>) -> Seq<char> {
    if starts_with(uri, "file://"@) {
        uri.skip(7)
    } else {
        uri
    }
}

/// A document's extension: what follows the last `.` of its path, unless it
/// is empty or holds a `/`.
pub open spec fn uri_extension(uri: Seq<char>) -> Option<Seq<char>> {
    let e = after_last_dot(uri_path(uri));
    if e.len() == 0 || contains_seq(e, seq!['/']) {
        None
    } else {
        Some(e)
    }
}

/// The language of a changed document, as the text after the last `.` of
/// its URI.
pub fn language_id_from_uri(uri: &str) -> (r: String)
    ensures
        r@ == after_last_dot(uri@),
{
    last_piece(uri).to_owned()
}

/// A document's path: its URI without a leading `file://`.
fn strip_file_scheme(uri: &str) -> (r: &str)
    ensures
        r@ == uri_path(uri@),
{
    let cs = chars_of(uri);
    let offs = char_offsets(uri);
    let scheme = chars_of("file://");
    proof {
        reveal_strlit("file://");
    }
    let mut k: usize = 0;
    if cs.len() < 7 {
        return uri;
    }
    while k < 7 && cs[k] == scheme[k]
        invariant
            k <= 7,
            cs@ == uri@,
            scheme@ == "file://"@,
            scheme@.len() == 7,
            cs@.len() >= 7,
            forall|q: int| 0 <= q < k ==> cs@[q] == scheme@[q],
        decreases 7 - k,
    {
        k = k + 1;
    }
    if k < 7 {
        assert(uri@.take(7) != "file://"@) by {
            assert(uri@.take(7)[k as int] != "file://"@[k as int]);
        }
        return uri;
    }
    assert(uri@.take(7) =~= "file://"@);
    char_slice(uri, &offs, 7, cs.len())
}

/// A document's extension: what follows the last `.` of its path, unless
/// it is empty or holds a `/`.
fn extension_of(path: &str) -> (r: Option<&str>)
    ensures
        opt_view(r) == (if after_last_dot(path@).len() == 0 || contains_seq(after_last_dot(path@), seq!['/']) {
            None
        } else {
            Some(after_last_dot(path@))
        }),
{
    let e = last_piece(path);
    let cs = chars_of(e);
    let slash = vec!['/'];
    assert(slash@ == seq!['/']);
    if cs.len() == 0 || has_seq(&cs, &slash) {
        None
    } else {
        Some(e)
    }
}

/// The diagnostics of a document: its type told by its language and the
/// extension of its URI, the rules run on its text, and each match kept
/// reported; `None` when processing cannot go through.
pub fn diagnostics_for(
    uri: &str,
    text: &str,
    language_id: &str,
    rules: &[Rule],
    min_confidence: u32,
) -> (r: Option<Vec<Diagnostic>>)
    requires
        text.spec_bytes().len() < usize::MAX,
    ensures
        ({
            let ext = uri_extension(uri@);
            let ft = spec_detect(ext, Some(language_id@));
            &&& r is Some <==> process_ok(text@, rules@, ft, min_confidence, ext)
            &&& r matches Some(d) ==> {
                let ms = spec_process(text@, rules@, ft, min_confidence, ext);
                &&& d@.len() == ms.len()
                &&& forall|k: int| 0 <= k < d@.len() ==> (#[trigger] d@[k]).fields() == diagnostic_of(text@, ms[k])
            }
        }),
{
    let path = strip_file_scheme(uri);
    let ext = extension_of(path);
    let file_type = detect_file_type(path, ext, Some(language_id));
    let (_fixed, matches) = match try_process_file(text, rules, file_type, min_confidence, ext) {
        Some(x) => x,
        None => {
            return None;
        },
    };
    let mut out: Vec<Diagnostic> = Vec::new();
    let mut k: usize = 0;
    while k < matches.len()
        invariant
            k <= matches@.len(),
            out@.len() == k,
            forall|j: int| 0 <= j < k ==> (#[trigger] out@[j]).fields() == diagnostic_of(text@, matches@[j]@),
        decreases matches@.len() - k,
    {
        out.push(match_to_diagnostic(text, &matches[k]));
        k = k + 1;
    }
    proof {
        let ms = views(matches@);
        assert forall|j: int| 0 <= j < out@.len() implies (#[trigger] out@[j]).fields() == diagnostic_of(text@, ms[j]) by {
            assert(ms[j] == matches@[j]@);
        }
    }
    Some(out)
}

/// A notification about a document from the editor.
pub enum DocumentEvent {
    /// `textDocument/didOpen`: the document's URI, text and language.
    Opened { uri: String, text: String, language_id: String },
    /// `textDocument/didChange`: the URI and the full texts the changes
    /// carry, in order.
    Changed { uri: String, changes: Vec<String> },
    /// `textDocument/didClose`.
    Closed { uri: String },
}

/// What the server sends the editor after a document notification.
pub enum Publication {
    /// Nothing.
    Nothing,
    /// These diagnostics for the document's URI (none clears them).
    Publish(Vec<Diagnostic>),
    /// The rules cannot process the document's text.
    Unprocessable,
}

/// The publication is what checking `text` as a document at `uri` in
/// `language` gives: its diagnostics, one per kept match, or
/// `Unprocessable`.
pub open spec fn publishes_checked(
    r: Publication,
    uri: Seq<char>,
    text: Seq<char>,
    language: Seq<char>,
    rules: Seq<Rule>,
    min_confidence: u32,
) -> bool {
    let ext = uri_extension(uri);
    let ft = spec_detect(ext, Some(language));
    if process_ok(text, rules, ft, min_confidence, ext) {
        let ms = spec_process(text, rules, ft, min_confidence, ext);
        &&& r matches Publication::Publish(d)
        &&& d@.len() == ms.len()
        &&& forall|k: int| 0 <= k < d@.len() ==> (#[trigger] d@[k]).fields() == diagnostic_of(text, ms[k])
    } else {
        r is Unprocessable
    }
}

/// The text a notification carries (the last change for a change), when
/// there is one.
pub open spec fn event_text(e: DocumentEvent) -> Option<Seq<char>> {
    match e {
        DocumentEvent::Opened { text, .. } => Some(text@),
        DocumentEvent::Changed { changes, .. } => if changes@.len() > 0 {
            Some(changes@.last()@)
        } else {
            None
        },
        DocumentEvent::Closed { .. } => None,
    }
}

/// What to publish for a notification: an opened document is checked in
/// its language; a changed one is checked with the text of its last change,
/// in the language its URI's extension names, and nothing is sent when the
/// change carries no text; a closed one has its diagnostics cleared.
pub fn publication_for(event: &DocumentEvent, rules: &[Rule], min_confidence: u32) -> (r: Publication)
    requires
        event_text(*event) matches Some(t) ==> encode_utf8(t).len() < usize::MAX,
    ensures
        match *event {
            DocumentEvent::Opened { uri, text, language_id } => publishes_checked(
                r,
                uri@,
                text@,
                language_id@,
                rules@,
                min_confidence,
            ),
            DocumentEvent::Changed { uri, changes } => if changes@.len() == 0 {
                r is Nothing
            } else {
                publishes_checked(r, uri@, changes@.last()@, after_last_dot(uri@), rules@, min_confidence)
            },
            DocumentEvent::Closed { .. } => r matches Publication::Publish(d) && d@.len() == 0,
        },
{
    match event {
        DocumentEvent::Opened { uri, text, language_id } => {
            match diagnostics_for(uri.as_str(), text.as_str(), language_id.as_str(), rules, min_confidence) {
                Some(d) => Publication::Publish(d),
                None => Publication::Unprocessable,
            }
        },
        DocumentEvent::Changed { uri, changes } => {
            if changes.len() == 0 {
                return Publication::Nothing;
            }
            let text = &changes[changes.len() - 1];
            let language_id = language_id_from_uri(uri.as_str());
            match diagnostics_for(uri.as_str(), text.as_str(), language_id.as_str(), rules, min_confidence) {
                Some(d) => Publication::Publish(d),
                None => Publication::Unprocessable,
            }
        },
        DocumentEvent::Closed { .. } => Publication::Publish(Vec::new()),
    }
}

/// A fix offered for a range of a document: replace the range by the text.
pub struct FixEdit {
    pub start_line: usize,
    pub start_character: usize,
    pub end_line: usize,
    pub end_character: usize,
    pub new_text: String,
    /// The rule whose match the fix comes from.
    pub rule_id: String,
}

impl FixEdit {
    /// The fields of the fix.
    pub open spec fn fields(&self) -> (int, int, int, int, Seq<char>, Seq<char>) {
        (
            self.start_line as int,
            self.start_character as int,
            self.end_line as int,
            self.end_character as int,
            self.new_text@,
            self.rule_id@,
        )
    }
}

/// Position `a` comes no later than position `b`.
pub open spec fn pos_le(a: (int, int), b: (int, int)) -> bool {
    a.0 < b.0 || (a.0 == b.0 && a.1 <= b.1)
}

/// The text a match's fix puts in place of its range, if it has a fix.
pub open spec fn fix_text(k: KindView) -> Option<Seq<char>> {
    match k {
        KindView::Replace(s) => Some(s),
        KindView::DeleteLine => Some(seq![]),
        KindView::DeleteBlock => Some(seq![]),
        KindView::FlagOnly => None,
    }
}

/// The fix of a match, when it has one and its range meets `from..to`.
pub open spec fn fix_for(cs: Seq<char>, m: MatchView, from: (int, int), to: (int, int)) -> Option<
    (int, int, int, int, Seq<char>, Seq<char>),
> {
    let d = diagnostic_of(cs, m);
    if fix_text(m.kind) is Some && pos_le((d.0, d.1), to) && pos_le(from, (d.2, d.3)) {
        Some((d.0, d.1, d.2, d.3, fix_text(m.kind)->0, m.rule_id))
    } else {
        None
    }
}

/// The fixes of the matches whose ranges meet `from..to`, in order.
pub open spec fn fixes_in(cs: Seq<char>, ms: Seq<MatchView>, from: (int, int), to: (int, int)) -> Seq<
    (int, int, int, int, Seq<char>, Seq<char>),
>
    decreases ms.len(),
{
    if ms.len() == 0 {
        seq![]
    } else {
        fixes_in(cs, ms.drop_last(), from, to) + match fix_for(cs, ms.last(), from, to) {
            Some(f) => seq![f],
            None => seq![],
        }
    }
}

/// The fixes offered for the range `from..to` (LSP positions) of a
/// document: one per match with a fix whose range meets it, replacing the
/// match's range by its replacement (nothing, for a deletion).
pub fn code_actions(content: &str, matches: &[Match], from: (usize, usize), to: (usize, usize)) -> (r:
    Vec<FixEdit>)
    ensures
        r@.len() == fixes_in(
            content@,
            views(matches@),
            (from.0 as int, from.1 as int),
            (to.0 as int, to.1 as int),
        ).len(),
        forall|k: int|
            0 <= k < r@.len() ==> (#[trigger] r@[k]).fields() == fixes_in(
                content@,
                views(matches@),
                (from.0 as int, from.1 as int),
                (to.0 as int, to.1 as int),
            )[k],
{
    let ghost ms = views(matches@);
    let ghost f = (from.0 as int, from.1 as int);
    let ghost t = (to.0 as int, to.1 as int);
    let mut out: Vec<FixEdit> = Vec::new();
    let mut k: usize = 0;
    proof {
        assert(ms.take(0) == Seq::<MatchView>::empty());
    }
    while k < matches.len()
        invariant
            ms == views(matches@),
            f == (from.0 as int, from.1 as int),
            t == (to.0 as int, to.1 as int),
            k <= matches@.len(),
            out@.len() == fixes_in(content@, ms.take(k as int), f, t).len(),
            forall|j: int|
                0 <= j < out@.len() ==> (#[trigger] out@[j]).fields() == fixes_in(
                    content@,
                    ms.take(k as int),
                    f,
                    t,
                )[j],
        decreases matches@.len() - k,
    {
        let ghost before = fixes_in(content@, ms.take(k as int), f, t);
        proof {
            assert(ms.take(k + 1).drop_last() == ms.take(k as int));
            assert(ms.take(k + 1).last() == matches@[k as int]@);
        }
        let m = &matches[k];
        let d = match_to_diagnostic(content, m);
        let text: Option<String> = match &m.kind {
            MatchKind::Replace(s) => Some(s.clone()),
            MatchKind::DeleteLine => Some(String::new()),
            MatchKind::DeleteBlock => Some(String::new()),
            MatchKind::FlagOnly => None,
        };
        proof {
            reveal_strlit("");
        }
        let starts_before_end = d.start_line < to.0 || (d.start_line == to.0 && d.start_character <= to.1);
        let ends_after_start = from.0 < d.end_line || (from.0 == d.end_line && from.1 <= d.end_character);
        match text {
            Some(new_text) => {
                if starts_before_end && ends_after_start {
                    out.push(
                        FixEdit {
                            start_line: d.start_line,
                            start_character: d.start_character,
                            end_line: d.end_line,
                            end_character: d.end_character,
                            new_text,
                            rule_id: m.rule_id.clone(),
                        },
                    );
                }
            },
            None => {},
        }
        proof {
            let now = fixes_in(content@, ms.take(k + 1), f, t);
            assert forall|j: int| 0 <= j < out@.len() implies (#[trigger] out@[j]).fields() == now[j] by {
                if j < before.len() {
                    assert(now[j] == before[j]);
                }
            }
        }
        k = k + 1;
    }
    assert(ms.take(k as int) == ms);
    out
}

/// The fixes a document offers for the range `from..to`: its type told by
/// its language and the extension of its URI, the rules run on its text,
/// and the fixes of the kept matches whose ranges meet the range; `None`
/// when processing cannot go through.
pub fn actions_for(
    uri: &str,
    text: &str,
    language_id: &str,
    rules: &[Rule],
    min_confidence: u32,
    from: (usize, usize),
    to: (usize, usize),
) -> (r: Option<Vec<FixEdit>>)
    requires
        text.spec_bytes().len() < usize::MAX,
    ensures
        ({
            let ext = uri_extension(uri@);
            let ft = spec_detect(ext, Some(language_id@));
            &&& r is Some <==> process_ok(text@, rules@, ft, min_confidence, ext)
            &&& r matches Some(v) ==> {
                let fs = fixes_in(
                    text@,
                    spec_process(text@, rules@, ft, min_confidence, ext),
                    (from.0 as int, from.1 as int),
                    (to.0 as int, to.1 as int),
                );
                &&& v@.len() == fs.len()
                &&& forall|k: int| 0 <= k < v@.len() ==> (#[trigger] v@[k]).fields() == fs[k]
            }
        }),
{
    let path = strip_file_scheme(uri);
    let ext = extension_of(path);
    let file_type = detect_file_type(path, ext, Some(language_id));
    match try_process_file(text, rules, file_type, min_confidence, ext) {
        Some((_fixed, matches)) => Some(code_actions(text, matches.as_slice(), from, to)),
        None => None,
    }
}

} // verus!
