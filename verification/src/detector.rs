//! File type detection from extensions and language flags.

use vstd::prelude::*;
use vstd::string::*;
use crate::bindings::{regex_find, regex_find_spans};
use crate::order::{lemma_sort_order, sort_order, stable_order};
use crate::rules::Span;
use crate::text::str_eq;

verus! {

/// How a file's content is treated.
#[derive(Debug, Clone, Copy, PartialEq, Eq, Structural)]
pub enum FileType {
    Code,
    Prose,
    Unknown,
}

/// Extensions (and language names) of source-code files.
pub open spec fn spec_is_code_ext(e: Seq<char>) -> bool {
    e == "rs"@ || e == "py"@ || e == "js"@ || e == "ts"@ || e == "jsx"@ || e == "tsx"@ || e
        == "java"@ || e == "c"@ || e == "cpp"@ || e == "h"@ || e == "hpp"@ || e == "go"@ || e
        == "php"@ || e == "rb"@ || e == "sh"@ || e == "bash"@ || e == "zsh"@ || e == "toml"@ || e
        == "yaml"@ || e == "yml"@ || e == "json"@ || e == "sql"@ || e == "kt"@ || e == "swift"@
        || e == "cs"@ || e == "scala"@
}

/// Extensions (and language names) of prose files.
pub open spec fn spec_is_prose_ext(e: Seq<char>) -> bool {
    e == "md"@ || e == "markdown"@ || e == "txt"@ || e == "rst"@ || e == "adoc"@ || e == "tex"@
}

/// Whether an extension names a source-code file.
pub fn is_code_file(ext: &str) -> (r: bool)
    ensures
        r == spec_is_code_ext(ext@),
{
    str_eq(ext, "rs") || str_eq(ext, "py") || str_eq(ext, "js") || str_eq(ext, "ts") || str_eq(
        ext,
        "jsx",
    ) || str_eq(ext, "tsx") || str_eq(ext, "java") || str_eq(ext, "c") || str_eq(ext, "cpp")
        || str_eq(ext, "h") || str_eq(ext, "hpp") || str_eq(ext, "go") || str_eq(ext, "php")
        || str_eq(ext, "rb") || str_eq(ext, "sh") || str_eq(ext, "bash") || str_eq(ext, "zsh")
        || str_eq(ext, "toml") || str_eq(ext, "yaml") || str_eq(ext, "yml") || str_eq(ext, "json")
        || str_eq(ext, "sql") || str_eq(ext, "kt") || str_eq(ext, "swift") || str_eq(ext, "cs")
        || str_eq(ext, "scala")
}

/// Whether an extension names a prose file.
pub fn is_prose_file(ext: &str) -> (r: bool)
    ensures
        r == spec_is_prose_ext(ext@),
{
    str_eq(ext, "md") || str_eq(ext, "markdown") || str_eq(ext, "txt") || str_eq(ext, "rst")
        || str_eq(ext, "adoc") || str_eq(ext, "tex")
}

/// The file type chosen from a language flag, else from the extension, else prose.
pub open spec fn spec_detect(ext: Option<Seq<char>>, lang: Option<Seq<char>>) -> FileType {
    if lang is Some && spec_is_code_ext(lang->0) {
        FileType::Code
    } else if lang is Some && spec_is_prose_ext(lang->0) {
        FileType::Prose
    } else if ext is Some && spec_is_code_ext(ext->0) {
        FileType::Code
    } else {
        FileType::Prose
    }
}

/// The view of an optional string.
pub open spec fn opt_view(s: Option<&str>) -> Option<Seq<char>> {
    match s {
        Some(x) => Some(x@),
        None => None,
    }
}

/// Detect how a file is treated: a language flag that names a code or prose
/// language wins, then the extension; anything else is prose.
pub fn detect_file_type(_path: &str, ext: Option<&str>, lang_flag: Option<&str>) -> (r: FileType)
    ensures
        r == spec_detect(opt_view(ext), opt_view(lang_flag)),
{
    if let Some(lang) = lang_flag {
        if is_code_file(lang) {
            return FileType::Code;
        }
        if is_prose_file(lang) {
            return FileType::Prose;
        }
    }
    if let Some(e) = ext {
        if is_code_file(e) {
            return FileType::Code;
        }
        if is_prose_file(e) {
            return FileType::Prose;
        }
    }
    FileType::Prose
}

/// Languages with `/* */` block comments and `//` line comments.
pub open spec fn spec_is_c_like(e: Seq<char>) -> bool {
    e == "rs"@ || e == "js"@ || e == "ts"@ || e == "java"@ || e == "c"@ || e == "cpp"@ || e
        == "go"@ || e == "php"@ || e == "swift"@ || e == "kt"@ || e == "cs"@ || e == "scala"@
}

/// Languages with `#` line comments.
pub open spec fn spec_is_hash_commented(e: Seq<char>) -> bool {
    e == "py"@ || e == "rb"@ || e == "sh"@ || e == "bash"@ || e == "zsh"@ || e == "toml"@ || e
        == "yaml"@ || e == "yml"@
}

/// The comment patterns searched for a file extension.
pub open spec fn comment_patterns(e: Seq<char>) -> Seq<Seq<char>> {
    if spec_is_c_like(e) {
        seq![r"(?s)/\*.*?\*/"@, r"(?m)//.*$"@]
    } else if spec_is_hash_commented(e) {
        if e == "py"@ {
            seq![r"(?m)#.*$"@, r#"(?s)"""(.*?)"""|'''(.*?)'''"#@]
        } else {
            seq![r"(?m)#.*$"@]
        }
    } else if e == "sql"@ || e == "lua"@ {
        seq![r"(?m)--.*$"@]
    } else if e == "tex"@ {
        seq![r"(?m)%.*$"@]
    } else {
        seq![]
    }
}

/// The spans a pattern finds (none when it does not compile).
pub open spec fn found_spans(pattern: Seq<char>, content: Seq<char>) -> Seq<Span> {
    match regex_find_spans(pattern, content) {
        Some(v) => Seq::new(v.len(), |k: int| Span { start: v[k].0, end: v[k].1 }),
        None => seq![],
    }
}

/// The spans all patterns find, pattern after pattern.
pub open spec fn raw_spans(patterns: Seq<Seq<char>>, content: Seq<char>) -> Seq<Span>
    decreases patterns.len(),
{
    if patterns.len() == 0 {
        seq![]
    } else {
        raw_spans(patterns.drop_last(), content) + found_spans(patterns.last(), content)
    }
}

/// The spans ordered by start, spans with equal starts in their given order.
pub open spec fn sort_spans(s: Seq<Span>) -> Seq<Span> {
    let o = sort_order(Seq::new(s.len(), |k: int| s[k].start), s.len() as int);
    Seq::new(s.len(), |k: int| s[o[k]])
}

/// Overlapping or touching neighbours merged, left to right.
pub open spec fn merge_spans(s: Seq<Span>) -> Seq<Span>
    decreases s.len(),
{
    if s.len() == 0 {
        seq![]
    } else {
        let m = merge_spans(s.drop_last());
        let sp = s.last();
        if m.len() > 0 && sp.start <= m.last().end {
            m.update(
                m.len() - 1,
                Span {
                    start: m.last().start,
                    end: if m.last().end >= sp.end {
                        m.last().end
                    } else {
                        sp.end
                    },
                },
            )
        } else {
            m.push(sp)
        }
    }
}

/// The comment spans of a text: every comment the extension's patterns find,
/// ordered by start, overlapping ones merged.
pub open spec fn spec_comment_spans(content: Seq<char>, ext: Option<Seq<char>>) -> Seq<Span> {
    let e = match ext {
        Some(x) => x,
        None => ""@,
    };
    merge_spans(sort_spans(raw_spans(comment_patterns(e), content)))
}

/// A file with one of the source-code extensions (rs, py, js, ts, jsx,
/// tsx, java, c, cpp, h, hpp, go, php, rb, sh, bash, zsh, toml, yaml, yml,
/// json, sql, kt, swift, cs, scala) is code, whatever its path, when no
/// language flag says otherwise; and a language flag naming one of them
/// makes any file code.
pub proof fn lemma_code_extensions(e: Seq<char>, ext: Option<Seq<char>>)
    requires
        e == "rs"@ || e == "py"@ || e == "js"@ || e == "ts"@ || e == "jsx"@ || e == "tsx"@ || e
            == "java"@ || e == "c"@ || e == "cpp"@ || e == "h"@ || e == "hpp"@ || e == "go"@ || e
            == "php"@ || e == "rb"@ || e == "sh"@ || e == "bash"@ || e == "zsh"@ || e == "toml"@
            || e == "yaml"@ || e == "yml"@ || e == "json"@ || e == "sql"@ || e == "kt"@ || e
            == "swift"@ || e == "cs"@ || e == "scala"@,
    ensures
        spec_detect(Some(e), None) == FileType::Code,
        spec_detect(ext, Some(e)) == FileType::Code,
{
}

/// Some span of the list covers `x`.
pub open spec fn covered_by(r: Seq<Span>, x: Span) -> bool {
    exists|y: int| 0 <= y < r.len() && r[y].start <= x.start && x.end <= r[y].end
}

/// Growing the last span of a list at its end keeps what the list covered.
proof fn lemma_covered_grow(m: Seq<Span>, e: usize, x: Span)
    requires
        m.len() > 0,
        covered_by(m, x),
        e >= m.last().end,
    ensures
        covered_by(m.update(m.len() - 1, Span { start: m.last().start, end: e }), x),
{
    let r = m.update(m.len() - 1, Span { start: m.last().start, end: e });
    let y = choose|y: int| 0 <= y < m.len() && m[y].start <= x.start && x.end <= m[y].end;
    assert(r[y].start <= x.start && x.end <= r[y].end);
}

/// Appending a span keeps what the list covered.
proof fn lemma_covered_push(m: Seq<Span>, sp: Span, x: Span)
    requires
        covered_by(m, x),
    ensures
        covered_by(m.push(sp), x),
{
    let y = choose|y: int| 0 <= y < m.len() && m[y].start <= x.start && x.end <= m[y].end;
    assert(m.push(sp)[y] == m[y]);
}

/// The spans that are merged from spans sorted by start cover each of them.
#[verifier::spinoff_prover]
proof fn lemma_merge_covers(s: Seq<Span>)
    requires
        forall|i: int, j: int| 0 <= i < j < s.len() ==> s[i].start <= s[j].start,
    ensures
        forall|i: int| 0 <= i < s.len() ==> covered_by(merge_spans(s), #[trigger] s[i]),
        s.len() > 0 ==> merge_spans(s).len() > 0 && merge_spans(s).last().start <= s.last().start,
    decreases s.len(),
{
    if s.len() > 0 {
        let p = s.drop_last();
        assert forall|i: int, j: int| 0 <= i < j < p.len() implies p[i].start <= p[j].start by {
            assert(p[i] == s[i] && p[j] == s[j]);
        }
        lemma_merge_covers(p);
        let m = merge_spans(p);
        let sp = s.last();
        let r = merge_spans(s);
        if m.len() > 0 && sp.start <= m.last().end {
            assert(p.len() > 0);
            assert(p.last() == s[s.len() - 2]);
            assert(s[s.len() - 2].start <= s[s.len() - 1].start);
            let e = if m.last().end >= sp.end {
                m.last().end
            } else {
                sp.end
            };
            assert(r == m.update(m.len() - 1, Span { start: m.last().start, end: e }));
            assert forall|i: int| 0 <= i < s.len() implies covered_by(r, #[trigger] s[i]) by {
                if i < p.len() {
                    assert(p[i] == s[i]);
                    assert(covered_by(m, p[i]));
                    lemma_covered_grow(m, e, s[i]);
                } else {
                    assert(r[m.len() - 1].start <= s[i].start && s[i].end <= r[m.len() - 1].end);
                }
            }
        } else {
            assert(r == m.push(sp));
            assert forall|i: int| 0 <= i < s.len() implies covered_by(r, #[trigger] s[i]) by {
                if i < p.len() {
                    assert(p[i] == s[i]);
                    assert(covered_by(m, p[i]));
                    lemma_covered_push(m, sp, s[i]);
                } else {
                    assert(r[m.len() as int] == s[i]);
                }
            }
        }
    }
}

/// What one pattern finds is among what all the patterns find.
proof fn lemma_raw_has_found(patterns: Seq<Seq<char>>, content: Seq<char>, j: int, k: int)
    requires
        0 <= j < patterns.len(),
        0 <= k < found_spans(patterns[j], content).len(),
    ensures
        raw_spans(patterns, content).contains(found_spans(patterns[j], content)[k]),
    decreases patterns.len(),
{
    let x = found_spans(patterns[j], content)[k];
    let prev = raw_spans(patterns.drop_last(), content);
    let last = found_spans(patterns.last(), content);
    assert(raw_spans(patterns, content) == prev + last);
    if j < patterns.len() - 1 {
        assert(patterns.drop_last()[j] == patterns[j]);
        lemma_raw_has_found(patterns.drop_last(), content, j, k);
        let q = choose|q: int| 0 <= q < prev.len() && prev[q] == x;
        assert((prev + last)[q] == x);
    } else {
        assert((prev + last)[prev.len() + k] == x);
    }
}

/// What one pattern finds lies inside a span that merging the sorted finds
/// of all the patterns gives.
proof fn lemma_found_covered(pats: Seq<Seq<char>>, content: Seq<char>, j: int, k: int)
    requires
        0 <= j < pats.len(),
        0 <= k < found_spans(pats[j], content).len(),
    ensures
        covered_by(merge_spans(sort_spans(raw_spans(pats, content))), found_spans(pats[j], content)[k]),
{
    let raw = raw_spans(pats, content);
    let keys = Seq::new(raw.len(), |q: int| raw[q].start);
    lemma_sort_order(keys, raw.len() as int);
    let o = sort_order(keys, raw.len() as int);
    let sorted = sort_spans(raw);
    assert forall|a: int, b: int| 0 <= a < b < sorted.len() implies sorted[a].start <= sorted[b].start by {
        assert(sorted[a] == raw[o[a]] && sorted[b] == raw[o[b]]);
        assert(keys[o[a]] <= keys[o[b]]);
    }
    lemma_merge_covers(sorted);
    lemma_raw_has_found(pats, content, j, k);
    let x = found_spans(pats[j], content)[k];
    let q = choose|q: int| 0 <= q < raw.len() && raw[q] == x;
    assert(o.contains(q));
    let i = choose|i: int| 0 <= i < o.len() && o[i] == q;
    assert(sorted[i] == x);
    assert(covered_by(merge_spans(sorted), sorted[i]));
}

/// In a file of a language with C-style comments (rs, js, ts, java, c, cpp,
/// go, php, swift, kt, cs, scala), every `/* */` block comment and every
/// `//` line comment that the comment patterns find lies inside one of the
/// comment spans.
pub proof fn lemma_c_comments_covered(content: Seq<char>, e: Seq<char>)
    requires
        e == "rs"@ || e == "js"@ || e == "ts"@ || e == "java"@ || e == "c"@ || e == "cpp"@ || e
            == "go"@ || e == "php"@ || e == "swift"@ || e == "kt"@ || e == "cs"@ || e == "scala"@,
    ensures
        forall|k: int|
            0 <= k < found_spans(r"(?s)/\*.*?\*/"@, content).len() ==> exists|y: int|
                0 <= y < spec_comment_spans(content, Some(e)).len() && spec_comment_spans(
                    content,
                    Some(e),
                )[y].start <= (#[trigger] found_spans(r"(?s)/\*.*?\*/"@, content)[k]).start
                    && found_spans(r"(?s)/\*.*?\*/"@, content)[k].end <= spec_comment_spans(
                    content,
                    Some(e),
                )[y].end,
        forall|k: int|
            0 <= k < found_spans(r"(?m)//.*$"@, content).len() ==> exists|y: int|
                0 <= y < spec_comment_spans(content, Some(e)).len() && spec_comment_spans(
                    content,
                    Some(e),
                )[y].start <= (#[trigger] found_spans(r"(?m)//.*$"@, content)[k]).start
                    && found_spans(r"(?m)//.*$"@, content)[k].end <= spec_comment_spans(
                    content,
                    Some(e),
                )[y].end,
{
    let pats = comment_patterns(e);
    assert(pats == seq![r"(?s)/\*.*?\*/"@, r"(?m)//.*$"@]);
    assert(spec_comment_spans(content, Some(e)) == merge_spans(sort_spans(raw_spans(pats, content))));
    assert(pats[0] == r"(?s)/\*.*?\*/"@);
    assert(pats[1] == r"(?m)//.*$"@);
    assert(found_spans(pats[0], content) == found_spans(r"(?s)/\*.*?\*/"@, content));
    assert(found_spans(pats[1], content) == found_spans(r"(?m)//.*$"@, content));
    assert forall|k: int| 0 <= k < found_spans(r"(?s)/\*.*?\*/"@, content).len() implies exists|y: int|
        0 <= y < spec_comment_spans(content, Some(e)).len() && spec_comment_spans(content, Some(e))[y].start
            <= (#[trigger] found_spans(r"(?s)/\*.*?\*/"@, content)[k]).start && found_spans(
            r"(?s)/\*.*?\*/"@,
            content,
        )[k].end <= spec_comment_spans(content, Some(e))[y].end by {
        lemma_found_covered(pats, content, 0, k);
    }
    assert forall|k: int| 0 <= k < found_spans(r"(?m)//.*$"@, content).len() implies exists|y: int|
        0 <= y < spec_comment_spans(content, Some(e)).len() && spec_comment_spans(content, Some(e))[y].start
            <= (#[trigger] found_spans(r"(?m)//.*$"@, content)[k]).start && found_spans(
            r"(?m)//.*$"@,
            content,
        )[k].end <= spec_comment_spans(content, Some(e))[y].end by {
        lemma_found_covered(pats, content, 1, k);
    }
}

/// What `pattern`, the `j`th of a file's comment patterns, finds lies
/// inside one of the file's comment spans.
proof fn lemma_pattern_covered(content: Seq<char>, e: Seq<char>, pattern: Seq<char>, j: int)
    requires
        0 <= j < comment_patterns(e).len(),
        comment_patterns(e)[j] == pattern,
    ensures
        forall|k: int|
            0 <= k < found_spans(pattern, content).len() ==> covered_by(
                spec_comment_spans(content, Some(e)),
                #[trigger] found_spans(pattern, content)[k],
            ),
{
    let pats = comment_patterns(e);
    assert(spec_comment_spans(content, Some(e)) == merge_spans(sort_spans(raw_spans(pats, content))));
    assert forall|k: int| 0 <= k < found_spans(pattern, content).len() implies covered_by(
        spec_comment_spans(content, Some(e)),
        #[trigger] found_spans(pattern, content)[k],
    ) by {
        lemma_found_covered(pats, content, j, k);
    }
}

/// In files with `#` line comments (py, rb, sh, bash, zsh, toml, yaml,
/// yml), every `#` comment found lies inside a comment span, and in Python
/// every docstring found too; in sql and lua every `--` comment, and in tex
/// every `%` comment.
pub proof fn lemma_other_comments_covered(content: Seq<char>, e: Seq<char>)
    ensures
        (e == "py"@ || e == "rb"@ || e == "sh"@ || e == "bash"@ || e == "zsh"@ || e == "toml"@ || e
            == "yaml"@ || e == "yml"@) ==> forall|k: int|
            0 <= k < found_spans(r"(?m)#.*$"@, content).len() ==> covered_by(
                spec_comment_spans(content, Some(e)),
                #[trigger] found_spans(r"(?m)#.*$"@, content)[k],
            ),
        e == "py"@ ==> forall|k: int|
            0 <= k < found_spans(r#"(?s)"""(.*?)"""|'''(.*?)'''"#@, content).len() ==> covered_by(
                spec_comment_spans(content, Some(e)),
                #[trigger] found_spans(r#"(?s)"""(.*?)"""|'''(.*?)'''"#@, content)[k],
            ),
        (e == "sql"@ || e == "lua"@) ==> forall|k: int|
            0 <= k < found_spans(r"(?m)--.*$"@, content).len() ==> covered_by(
                spec_comment_spans(content, Some(e)),
                #[trigger] found_spans(r"(?m)--.*$"@, content)[k],
            ),
        e == "tex"@ ==> forall|k: int|
            0 <= k < found_spans(r"(?m)%.*$"@, content).len() ==> covered_by(
                spec_comment_spans(content, Some(e)),
                #[trigger] found_spans(r"(?m)%.*$"@, content)[k],
            ),
{
    reveal_strlit("py");
    reveal_strlit("rb");
    reveal_strlit("sh");
    reveal_strlit("bash");
    reveal_strlit("zsh");
    reveal_strlit("toml");
    reveal_strlit("yaml");
    reveal_strlit("yml");
    reveal_strlit("sql");
    reveal_strlit("lua");
    reveal_strlit("tex");
    reveal_strlit("rs");
    reveal_strlit("js");
    reveal_strlit("ts");
    reveal_strlit("java");
    reveal_strlit("c");
    reveal_strlit("cpp");
    reveal_strlit("go");
    reveal_strlit("php");
    reveal_strlit("swift");
    reveal_strlit("kt");
    reveal_strlit("cs");
    reveal_strlit("scala");
    assert("py"@ =~= seq!['p', 'y']);
    assert("rb"@ =~= seq!['r', 'b']);
    assert("sh"@ =~= seq!['s', 'h']);
    assert("bash"@ =~= seq!['b', 'a', 's', 'h']);
    assert("zsh"@ =~= seq!['z', 's', 'h']);
    assert("toml"@ =~= seq!['t', 'o', 'm', 'l']);
    assert("yaml"@ =~= seq!['y', 'a', 'm', 'l']);
    assert("yml"@ =~= seq!['y', 'm', 'l']);
    assert("sql"@ =~= seq!['s', 'q', 'l']);
    assert("lua"@ =~= seq!['l', 'u', 'a']);
    assert("tex"@ =~= seq!['t', 'e', 'x']);
    assert("rs"@ =~= seq!['r', 's']);
    assert("js"@ =~= seq!['j', 's']);
    assert("ts"@ =~= seq!['t', 's']);
    assert("java"@ =~= seq!['j', 'a', 'v', 'a']);
    assert("c"@ =~= seq!['c']);
    assert("cpp"@ =~= seq!['c', 'p', 'p']);
    assert("go"@ =~= seq!['g', 'o']);
    assert("php"@ =~= seq!['p', 'h', 'p']);
    assert("swift"@ =~= seq!['s', 'w', 'i', 'f', 't']);
    assert("kt"@ =~= seq!['k', 't']);
    assert("cs"@ =~= seq!['c', 's']);
    assert("scala"@ =~= seq!['s', 'c', 'a', 'l', 'a']);
    if e == "py"@ || e == "rb"@ || e == "sh"@ || e == "bash"@ || e == "zsh"@ || e == "toml"@ || e
        == "yaml"@ || e == "yml"@ {
        assert(!spec_is_c_like(e));
        assert(spec_is_hash_commented(e));
        lemma_pattern_covered(content, e, r"(?m)#.*$"@, 0);
        if e == "py"@ {
            lemma_pattern_covered(content, e, r#"(?s)"""(.*?)"""|'''(.*?)'''"#@, 1);
        }
    }
    if e == "sql"@ || e == "lua"@ {
        assert(!spec_is_c_like(e) && !spec_is_hash_commented(e));
        lemma_pattern_covered(content, e, r"(?m)--.*$"@, 0);
    }
    if e == "tex"@ {
        assert(!spec_is_c_like(e) && !spec_is_hash_commented(e));
        lemma_pattern_covered(content, e, r"(?m)%.*$"@, 0);
    }
}

/// A file with one of the prose extensions (md, markdown, txt, rst, adoc,
/// tex) is prose when no language flag says otherwise, a language flag
/// naming one of them makes any file prose, and a file with neither flag
/// nor extension is prose.
pub proof fn lemma_prose_extensions(e: Seq<char>, ext: Option<Seq<char>>)
    requires
        e == "md"@ || e == "markdown"@ || e == "txt"@ || e == "rst"@ || e == "adoc"@ || e == "tex"@,
    ensures
        spec_detect(Some(e), None) == FileType::Prose,
        spec_detect(ext, Some(e)) == FileType::Prose,
        spec_detect(None, None) == FileType::Prose,
{
    reveal_strlit("md");
    reveal_strlit("markdown");
    reveal_strlit("txt");
    reveal_strlit("rst");
    reveal_strlit("adoc");
    reveal_strlit("tex");
    assert(!spec_is_code_ext(e)) by {
        reveal_strlit("rs");
        reveal_strlit("py");
        reveal_strlit("js");
        reveal_strlit("ts");
        reveal_strlit("jsx");
        reveal_strlit("tsx");
        reveal_strlit("java");
        reveal_strlit("c");
        reveal_strlit("cpp");
        reveal_strlit("h");
        reveal_strlit("hpp");
        reveal_strlit("go");
        reveal_strlit("php");
        reveal_strlit("rb");
        reveal_strlit("sh");
        reveal_strlit("bash");
        reveal_strlit("zsh");
        reveal_strlit("toml");
        reveal_strlit("yaml");
        reveal_strlit("yml");
        reveal_strlit("json");
        reveal_strlit("sql");
        reveal_strlit("kt");
        reveal_strlit("swift");
        reveal_strlit("cs");
        reveal_strlit("scala");
        assert("md"@ =~= seq!['m', 'd']);
        assert("markdown"@ =~= seq!['m', 'a', 'r', 'k', 'd', 'o', 'w', 'n']);
        assert("txt"@ =~= seq!['t', 'x', 't']);
        assert("rst"@ =~= seq!['r', 's', 't']);
        assert("adoc"@ =~= seq!['a', 'd', 'o', 'c']);
        assert("tex"@ =~= seq!['t', 'e', 'x']);
        assert("rs"@ =~= seq!['r', 's']);
        assert("py"@ =~= seq!['p', 'y']);
        assert("js"@ =~= seq!['j', 's']);
        assert("ts"@ =~= seq!['t', 's']);
        assert("jsx"@ =~= seq!['j', 's', 'x']);
        assert("tsx"@ =~= seq!['t', 's', 'x']);
        assert("java"@ =~= seq!['j', 'a', 'v', 'a']);
        assert("c"@ =~= seq!['c']);
        assert("cpp"@ =~= seq!['c', 'p', 'p']);
        assert("h"@ =~= seq!['h']);
        assert("hpp"@ =~= seq!['h', 'p', 'p']);
        assert("go"@ =~= seq!['g', 'o']);
        assert("php"@ =~= seq!['p', 'h', 'p']);
        assert("rb"@ =~= seq!['r', 'b']);
        assert("sh"@ =~= seq!['s', 'h']);
        assert("bash"@ =~= seq!['b', 'a', 's', 'h']);
        assert("zsh"@ =~= seq!['z', 's', 'h']);
        assert("toml"@ =~= seq!['t', 'o', 'm', 'l']);
        assert("yaml"@ =~= seq!['y', 'a', 'm', 'l']);
        assert("yml"@ =~= seq!['y', 'm', 'l']);
        assert("json"@ =~= seq!['j', 's', 'o', 'n']);
        assert("sql"@ =~= seq!['s', 'q', 'l']);
        assert("kt"@ =~= seq!['k', 't']);
        assert("swift"@ =~= seq!['s', 'w', 'i', 'f', 't']);
        assert("cs"@ =~= seq!['c', 's']);
        assert("scala"@ =~= seq!['s', 'c', 'a', 'l', 'a']);
    }
}

/// Appends the spans that `pattern` finds in `content`.
fn append_found(out: &mut Vec<Span>, pattern: &str, content: &str)
    ensures
        final(out)@ == old(out)@ + found_spans(pattern@, content@),
{
    if let Some(v) = regex_find(pattern, content) {
        let ghost start = out@;
        let mut i: usize = 0;
        while i < v.len()
            invariant
                i <= v@.len(),
                out@ == start + Seq::new(i as nat, |k: int| Span { start: v@[k].0, end: v@[k].1 }),
            decreases v@.len() - i,
        {
            let (s, e) = v[i];
            out.push(Span { start: s, end: e });
            i = i + 1;
        }
    } else {
        assert(old(out)@ + Seq::<Span>::empty() == old(out)@);
    }
}

/// Spans ordered by start, equal starts kept in order.
fn sorted_spans(spans: &Vec<Span>) -> (r: Vec<Span>)
    ensures
        r@ == sort_spans(spans@),
{
    let mut keys: Vec<usize> = Vec::new();
    let mut i: usize = 0;
    while i < spans.len()
        invariant
            i <= spans@.len(),
            keys@ == Seq::new(i as nat, |k: int| spans@[k].start),
        decreases spans@.len() - i,
    {
        keys.push(spans[i].start);
        i = i + 1;
    }
    let order = stable_order(&keys);
    proof {
        lemma_sort_order(keys@, keys@.len() as int);
    }
    let ghost so = sort_order(keys@, keys@.len() as int);
    let mut out: Vec<Span> = Vec::new();
    let mut k: usize = 0;
    while k < order.len()
        invariant
            k <= order@.len(),
            order@.len() == spans@.len(),
            so.len() == spans@.len(),
            forall|q: int| 0 <= q < order@.len() ==> order@[q] as int == so[q],
            forall|q: int| 0 <= q < so.len() ==> 0 <= #[trigger] so[q] < so.len(),
            out@ == Seq::new(k as nat, |q: int| spans@[so[q]]),
        decreases order@.len() - k,
    {
        assert(0 <= so[k as int] < so.len());
        out.push(spans[order[k]]);
        k = k + 1;
    }
    out
}

/// Overlapping or touching neighbours merged.
fn merged(spans: &Vec<Span>) -> (r: Vec<Span>)
    ensures
        r@ == merge_spans(spans@),
{
    let mut out: Vec<Span> = Vec::new();
    let mut i: usize = 0;
    while i < spans.len()
        invariant
            i <= spans@.len(),
            out@ == merge_spans(spans@.subrange(0, i as int)),
        decreases spans@.len() - i,
    {
        let sp = spans[i];
        proof {
            assert(spans@.subrange(0, i + 1).drop_last() == spans@.subrange(0, i as int));
        }
        let n = out.len();
        if n > 0 && sp.start <= out[n - 1].end {
            let last = out[n - 1];
            let end = if last.end >= sp.end {
                last.end
            } else {
                sp.end
            };
            out.set(n - 1, Span { start: last.start, end });
        } else {
            out.push(sp);
        }
        i = i + 1;
    }
    assert(spans@.subrange(0, spans@.len() as int) == spans@);
    out
}

/// The comment and docstring spans of a file, by extension: every comment
/// found, ordered by start, with overlapping or touching spans merged.
pub fn extract_comment_spans(content: &str, ext: Option<&str>) -> (r: Vec<Span>)
    ensures
        r@ == spec_comment_spans(content@, opt_view(ext)),
{
    let e: &str = match ext {
        Some(x) => x,
        None => "",
    };
    let ghost pats = comment_patterns(e@);
    let mut spans: Vec<Span> = Vec::new();
    if str_eq(e, "rs") || str_eq(e, "js") || str_eq(e, "ts") || str_eq(e, "java") || str_eq(e, "c")
        || str_eq(e, "cpp") || str_eq(e, "go") || str_eq(e, "php") || str_eq(e, "swift")
        || str_eq(e, "kt") || str_eq(e, "cs") || str_eq(e, "scala") {
        append_found(&mut spans, r"(?s)/\*.*?\*/", content);
        append_found(&mut spans, r"(?m)//.*$", content);
        assert(pats.drop_last().drop_last() == Seq::<Seq<char>>::empty());
    } else if str_eq(e, "py") || str_eq(e, "rb") || str_eq(e, "sh") || str_eq(e, "bash")
        || str_eq(e, "zsh") || str_eq(e, "toml") || str_eq(e, "yaml") || str_eq(e, "yml") {
        append_found(&mut spans, r"(?m)#.*$", content);
        if str_eq(e, "py") {
            append_found(&mut spans, r#"(?s)"""(.*?)"""|'''(.*?)'''"#, content);
            assert(pats.drop_last().drop_last() == Seq::<Seq<char>>::empty());
        } else {
            assert(pats.drop_last() == Seq::<Seq<char>>::empty());
        }
    } else if str_eq(e, "sql") || str_eq(e, "lua") {
        append_found(&mut spans, r"(?m)--.*$", content);
        assert(pats.drop_last() == Seq::<Seq<char>>::empty());
    } else if str_eq(e, "tex") {
        append_found(&mut spans, r"(?m)%.*$", content);
        assert(pats.drop_last() == Seq::<Seq<char>>::empty());
    }
    proof {
        reveal_with_fuel(raw_spans, 3);
        assert(spans@ =~= raw_spans(pats, content@));
    }
    let sorted = sorted_spans(&spans);
    merged(&sorted)
}

} // verus!
