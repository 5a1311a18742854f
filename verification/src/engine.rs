//! Applying fixes to a text: replacement in reverse byte order, blank-line
//! collapsing after deletions, and resolution of overlapping matches.

use vstd::prelude::*;
use vstd::string::*;
use vstd::utf8::*;
use crate::order::{lemma_sort_order, sort_order, stable_order};
use core::ops::Range;
use crate::detector::{extract_comment_spans, opt_view, spec_comment_spans, FileType};
use crate::rules::{
    views, Category, FileTypeFilter, KindView, Match, MatchKind, MatchView, Rule, Span,
};
use crate::text::{
    at_boundary, boundary, char_start, decode_at, lemma_char_start, push_newline, push_str,
    replace_checked, substring, text_of,
};

verus! {

/// Spaces, tabs and carriage returns: the bytes a blank line may hold.
pub open spec fn is_blank_byte(c: u8) -> bool {
    c == 32u8 || c == 9u8 || c == 13u8
}

/// The first position at or after `j` that does not hold a blank byte.
pub open spec fn skip_blank(b: Seq<u8>, j: int) -> int
    decreases b.len() - j,
{
    if 0 <= j < b.len() && is_blank_byte(b[j]) {
        skip_blank(b, j + 1)
    } else {
        j
    }
}

/// `k` newline bytes.
pub open spec fn newlines(k: int) -> Seq<u8> {
    Seq::new(if k < 0 { 0 } else { k as nat }, |i: int| 10u8)
}

/// Where the scan resumes after the newline at `i`: the blank bytes of a
/// line that holds nothing else are skipped up to its own newline.
pub open spec fn after_newline(b: Seq<u8>, i: int) -> int {
    let j = skip_blank(b, i + 1);
    if 0 <= j < b.len() && b[j] == 10u8 {
        j
    } else {
        i + 1
    }
}

/// The collapsed form of `b[i..]`, with `run` newlines read but not yet
/// written: every run of newlines (with the blank lines inside it) becomes
/// at most two newlines, and trailing newlines become at most one.
pub open spec fn collapse_from(b: Seq<u8>, i: int, run: int) -> Seq<u8>
    decreases b.len() - i,
{
    if i < 0 || i >= b.len() {
        newlines(if run < 1 { run } else { 1 })
    } else if b[i] == 10u8 {
        proof {
            lemma_skip_blank(b, i + 1);
        }
        collapse_from(b, after_newline(b, i), run + 1)
    } else {
        newlines(if run < 2 { run } else { 2 }) + seq![b[i]] + collapse_from(b, i + 1, 0)
    }
}

/// Three consecutive newlines start at `p`.
pub open spec fn triple_newline_at(b: Seq<u8>, p: int) -> bool {
    0 <= p && p + 2 < b.len() && b[p] == 10u8 && b[p + 1] == 10u8 && b[p + 2] == 10u8
}

/// The text holds three consecutive newlines.
pub open spec fn has_triple_newline(b: Seq<u8>) -> bool {
    exists|p: int| triple_newline_at(b, p)
}

/// Blank-line collapsing of a whole text: texts without three consecutive
/// newlines are left alone.
pub open spec fn collapse(b: Seq<u8>) -> Seq<u8> {
    if has_triple_newline(b) {
        collapse_from(b, 0, 0)
    } else {
        b
    }
}

pub proof fn lemma_skip_blank(b: Seq<u8>, j: int)
    requires
        0 <= j,
    ensures
        j <= skip_blank(b, j),
        skip_blank(b, j) <= b.len() || skip_blank(b, j) == j,
        forall|q: int| j <= q < skip_blank(b, j) ==> is_blank_byte(#[trigger] b[q]),
    decreases b.len() - j,
{
    if 0 <= j < b.len() && is_blank_byte(b[j]) {
        lemma_skip_blank(b, j + 1);
    }
}

/// Reading a run of non-newline bytes copies them unchanged.
proof fn lemma_collapse_chunk(b: Seq<u8>, i: int, e: int, run: int)
    requires
        0 <= i < e <= b.len(),
        forall|k: int| i <= k < e ==> b[k] != 10u8,
    ensures
        collapse_from(b, i, run) == newlines(if run < 2 { run } else { 2 }) + b.subrange(i, e)
            + collapse_from(b, e, 0),
    decreases e - i,
{
    if i + 1 < e {
        lemma_collapse_chunk(b, i + 1, e, 0);
        assert(newlines(0) == Seq::<u8>::empty());
        assert(seq![b[i]] + b.subrange(i + 1, e) == b.subrange(i, e));
    } else {
        assert(seq![b[i]] == b.subrange(i, e));
    }
}

/// Collapse consecutive blank lines: when the text holds three consecutive
/// newlines, every run of newlines (with the blank lines inside it) becomes
/// at most two newlines and trailing newlines become at most one.
pub fn collapse_blank_lines(content: &mut String)
    ensures
        encode_utf8(final(content)@) == collapse(encode_utf8(old(content)@)),
{
    let ghost b = encode_utf8(content@);
    let src: &str = content.as_str();
    let bytes = src.as_bytes();
    proof {
        encode_utf8_valid_utf8(content@);
    }
    let mut found = false;
    let limit: usize = if bytes.len() >= 2 { bytes.len() - 2 } else { 0 };
    let mut p: usize = 0;
    while p < limit
        invariant
            bytes@ == b,
            limit as int == (if b.len() >= 2 { b.len() - 2 } else { 0 }),
            p <= limit,
            found ==> has_triple_newline(b),
            !found ==> forall|q: int| 0 <= q < p ==> !triple_newline_at(b, q),
        decreases limit - p,
    {
        if bytes[p] == 10u8 && bytes[p + 1] == 10u8 && bytes[p + 2] == 10u8 {
            assert(triple_newline_at(b, p as int));
            found = true;
        }
        p = p + 1;
    }
    if !found {
        assert(!has_triple_newline(b));
        return;
    }
    let mut result = String::new();
    let mut run: usize = 0;
    let mut i: usize = 0;
    while i < bytes.len()
        invariant
            bytes@ == b,
            src.spec_bytes() == b,
            valid_utf8(b),
            has_triple_newline(b),
            i <= b.len(),
            run <= i,
            boundary(b, i as int),
            encode_utf8(result@) + collapse_from(b, i as int, run as int) == collapse_from(b, 0, 0),
        decreases b.len() - i,
    {
        let byte = bytes[i];
        if byte == 10u8 {
            proof {
                lemma_char_start(b, i as int);
                lemma_skip_blank(b, i + 1);
            }
            let ghost i0 = i as int;
            i = i + 1;
            let mut j = i;
            while j < bytes.len() && (bytes[j] == 32u8 || bytes[j] == 9u8 || bytes[j] == 13u8)
                invariant
                    bytes@ == b,
                    i <= j <= b.len(),
                    skip_blank(b, i as int) == skip_blank(b, j as int),
                decreases b.len() - j,
            {
                j = j + 1;
            }
            assert(skip_blank(b, j as int) == j);
            if j < bytes.len() && bytes[j] == 10u8 {
                i = j;
            }
            assert(i as int == after_newline(b, i0));
            run = run + 1;
        } else {
            let (_cp, w) = decode_at(bytes, i);
            proof {
                lemma_char_start(b, i as int);
                assert forall|k: int| i <= k < i + w implies b[k] != 10u8 by {
                    let s = b.subrange(i as int, b.len() as int);
                    assert(s[k - i] == b[k]);
                }
                lemma_collapse_chunk(b, i as int, i + w, run as int);
            }
            let ghost before = result@;
            let keep: usize = if run < 2 { run } else { 2 };
            let mut k: usize = 0;
            while k < keep
                invariant
                    k <= keep,
                    encode_utf8(result@) == encode_utf8(before) + newlines(k as int),
                decreases keep - k,
            {
                push_newline(&mut result);
                assert(newlines(k as int) + seq![10u8] == newlines(k + 1));
                k = k + 1;
            }
            let piece = substring(src, i, i + w);
            push_str(&mut result, piece);
            run = 0;
            i = i + w;
        }
    }
    let ghost before = result@;
    if run > 0 {
        push_newline(&mut result);
        assert(newlines(1) == seq![10u8]);
    } else {
        assert(newlines(0) == Seq::<u8>::empty());
    }
    *content = result;
}


/// The bytes a match writes in place of its range, or `None` for a match
/// that is only flagged.
pub open spec fn fix_bytes(k: KindView) -> Option<Seq<u8>> {
    match k {
        KindView::Replace(s) => Some(encode_utf8(s)),
        KindView::DeleteLine | KindView::DeleteBlock => Some(Seq::<u8>::empty()),
        KindView::FlagOnly => None,
    }
}

/// One fix applied to the text `t`: its range is replaced when both ends
/// are character boundaries of `t` (a range that is not is left alone).
pub open spec fn apply_step(t: Seq<u8>, m: MatchView) -> Seq<u8> {
    match fix_bytes(m.kind) {
        Some(rep) => if m.start <= m.end && is_char_boundary(t, m.start) && is_char_boundary(
            t,
            m.end,
        ) {
            t.subrange(0, m.start) + rep + t.subrange(m.end, t.len() as int)
        } else {
            t
        },
        None => t,
    }
}

/// The fixes applied one after the other, in sequence order.
pub open spec fn apply_all(t: Seq<u8>, ms: Seq<MatchView>) -> Seq<u8>
    decreases ms.len(),
{
    if ms.len() == 0 {
        t
    } else {
        apply_step(apply_all(t, ms.drop_last()), ms.last())
    }
}

/// The sort keys that put later matches first: a stable sort on them
/// orders matches by descending start, equal starts in their given order.
pub open spec fn reverse_start_keys(ms: Seq<MatchView>) -> Seq<usize> {
    Seq::new(ms.len(), |i: int| (usize::MAX - ms[i].start) as usize)
}

/// The matches in the order their fixes are applied: by descending start.
pub open spec fn application_order(ms: Seq<MatchView>) -> Seq<MatchView> {
    let o = sort_order(reverse_start_keys(ms), ms.len() as int);
    Seq::new(ms.len(), |k: int| ms[o[k]])
}

proof fn lemma_apply_all_flags(t: Seq<u8>, ms: Seq<MatchView>)
    requires
        forall|i: int| 0 <= i < ms.len() ==> (#[trigger] ms[i]).kind is FlagOnly,
    ensures
        apply_all(t, ms) == t,
    decreases ms.len(),
{
    if ms.len() > 0 {
        lemma_apply_all_flags(t, ms.drop_last());
    }
}

/// Flagged matches are never written: fixing a text with matches that are
/// all only flagged leaves it as it was.
pub proof fn lemma_flag_only_not_written(t: Seq<u8>, ms: Seq<MatchView>)
    requires
        forall|i: int| 0 <= i < ms.len() ==> (#[trigger] ms[i]).kind is FlagOnly,
    ensures
        fixed_text(t, ms) == t,
{
    let keys = reverse_start_keys(ms);
    crate::order::lemma_sort_order(keys, ms.len() as int);
    let o = sort_order(keys, ms.len() as int);
    let ordered = application_order(ms);
    assert forall|k: int| 0 <= k < ordered.len() implies (#[trigger] ordered[k]).kind is FlagOnly by {
        assert(ordered[k] == ms[o[k]]);
    }
    lemma_apply_all_flags(t, ordered);
    assert(!deletes_lines(ms));
}

/// Some match deletes a line or a block.
pub open spec fn deletes_lines(ms: Seq<MatchView>) -> bool {
    exists|i: int|
        0 <= i < ms.len() && (ms[i].kind is DeleteLine || ms[i].kind is DeleteBlock)
}

/// The text after all fixes: applied from the last match backwards, then
/// blank lines collapsed when a line or block was deleted.
pub open spec fn fixed_text(t: Seq<u8>, ms: Seq<MatchView>) -> Seq<u8> {
    let applied = apply_all(t, application_order(ms));
    if deletes_lines(ms) {
        collapse(applied)
    } else {
        applied
    }
}

/// The matches' starts strictly decrease along the sequence.
pub open spec fn starts_descending(ms: Seq<MatchView>) -> bool {
    forall|k: int, l: int| 0 <= k < l < ms.len() ==> ms[k].start > ms[l].start
}

/// No two matches of the list start at the same byte.
pub open spec fn distinct_starts(ms: Seq<MatchView>) -> bool {
    forall|i: int, j: int| 0 <= i < ms.len() && 0 <= j < ms.len() && i != j ==> ms[i].start != ms[j].start
}

/// The order fixes are applied in, for matches at distinct starts: the
/// same matches, by strictly descending start.
proof fn lemma_application_order_facts(ms: Seq<MatchView>)
    requires
        distinct_starts(ms),
        forall|i: int| 0 <= i < ms.len() ==> 0 <= #[trigger] ms[i].start <= usize::MAX,
    ensures
        application_order(ms).len() == ms.len(),
        starts_descending(application_order(ms)),
        forall|x: MatchView| application_order(ms).contains(x) <==> ms.contains(x),
{
    let keys = reverse_start_keys(ms);
    let n = ms.len() as int;
    crate::order::lemma_sort_order(keys, n);
    let o = sort_order(keys, n);
    let a = application_order(ms);
    assert forall|k: int, l: int| 0 <= k < l < a.len() implies a[k].start > a[l].start by {
        assert(a[k] == ms[o[k]]);
        assert(a[l] == ms[o[l]]);
        assert(keys[o[k]] == (usize::MAX - ms[o[k]].start) as usize);
        assert(keys[o[l]] == (usize::MAX - ms[o[l]].start) as usize);
    }
    assert forall|x: MatchView| a.contains(x) <==> ms.contains(x) by {
        if a.contains(x) {
            let k = choose|k: int| 0 <= k < a.len() && a[k] == x;
            assert(ms[o[k]] == x);
        }
        if ms.contains(x) {
            let i = choose|i: int| 0 <= i < ms.len() && ms[i] == x;
            assert(o.contains(i));
            let k = choose|k: int| 0 <= k < o.len() && o[k] == i;
            assert(a[k] == x);
        }
    }
}

/// Two lists by strictly descending start that hold the same matches are
/// the same list.
proof fn lemma_descending_unique(a: Seq<MatchView>, b: Seq<MatchView>)
    requires
        a.len() == b.len(),
        starts_descending(a),
        starts_descending(b),
        forall|x: MatchView| a.contains(x) <==> b.contains(x),
    ensures
        a == b,
    decreases a.len(),
{
    if a.len() > 0 {
        assert(b.contains(a[0]));
        let j = choose|j: int| 0 <= j < b.len() && b[j] == a[0];
        assert(a.contains(b[0]));
        let i = choose|i: int| 0 <= i < a.len() && a[i] == b[0];
        if i > 0 {
            assert(a[0].start > a[i].start);
        }
        if j > 0 {
            assert(b[0].start > b[j].start);
        }
        assert(i == 0 && j == 0);
        let ta = a.drop_first();
        let tb = b.drop_first();
        assert forall|x: MatchView| ta.contains(x) <==> tb.contains(x) by {
            if ta.contains(x) {
                let k = choose|k: int| 0 <= k < ta.len() && ta[k] == x;
                assert(a[k + 1] == x);
                assert(b.contains(x));
                let q = choose|q: int| 0 <= q < b.len() && b[q] == x;
                assert(a[0].start > a[k + 1].start);
                assert(q != 0);
                assert(tb[q - 1] == x);
            }
            if tb.contains(x) {
                let k = choose|k: int| 0 <= k < tb.len() && tb[k] == x;
                assert(b[k + 1] == x);
                assert(a.contains(x));
                let q = choose|q: int| 0 <= q < a.len() && a[q] == x;
                assert(b[0].start > b[k + 1].start);
                assert(q != 0);
                assert(ta[q - 1] == x);
            }
        }
        lemma_descending_unique(ta, tb);
        assert(a =~= seq![a[0]] + ta);
        assert(b =~= seq![b[0]] + tb);
    }
}

/// Fixes at distinct starts do not depend on the order the matches come
/// in: any reordering of the matches gives the same text.
pub proof fn lemma_fix_order_free(t: Seq<u8>, ms: Seq<MatchView>, perm: Seq<int>)
    requires
        perm.len() == ms.len(),
        forall|i: int| 0 <= i < perm.len() ==> 0 <= #[trigger] perm[i] < ms.len(),
        forall|i: int, j: int| 0 <= i < j < perm.len() ==> perm[i] != perm[j],
        forall|j: int| 0 <= j < ms.len() ==> perm.contains(j),
        forall|i: int| 0 <= i < ms.len() ==> 0 <= #[trigger] ms[i].start <= usize::MAX,
        distinct_starts(ms),
    ensures
        fixed_text(t, Seq::new(ms.len(), |i: int| ms[perm[i]])) == fixed_text(t, ms),
{
    let n = ms.len() as int;
    let ms2 = Seq::new(ms.len(), |i: int| ms[perm[i]]);
    assert(distinct_starts(ms2)) by {
        assert forall|i: int, j: int| 0 <= i < n && 0 <= j < n && i != j implies ms2[i].start != ms2[j].start by {
            if i < j {
                assert(perm[i] != perm[j]);
            } else {
                assert(perm[j] != perm[i]);
            }
        }
    }
    assert forall|i: int| 0 <= i < n implies 0 <= #[trigger] ms2[i].start <= usize::MAX by {
        assert(ms2[i] == ms[perm[i]]);
    }
    assert forall|x: MatchView| ms2.contains(x) <==> ms.contains(x) by {
        if ms2.contains(x) {
            let i = choose|i: int| 0 <= i < n && ms2[i] == x;
            assert(ms[perm[i]] == x);
        }
        if ms.contains(x) {
            let i = choose|i: int| 0 <= i < n && ms[i] == x;
            assert(perm.contains(i));
            let k = choose|k: int| 0 <= k < n && perm[k] == i;
            assert(ms2[k] == x);
        }
    }
    lemma_application_order_facts(ms);
    lemma_application_order_facts(ms2);
    assert forall|x: MatchView| application_order(ms2).contains(x) <==> application_order(ms).contains(x) by {
        assert(ms2.contains(x) <==> ms.contains(x));
    }
    lemma_descending_unique(application_order(ms2), application_order(ms));
    assert(deletes_lines(ms2) == deletes_lines(ms)) by {
        if deletes_lines(ms2) {
            let i = choose|i: int|
                0 <= i < ms2.len() && (ms2[i].kind is DeleteLine || ms2[i].kind is DeleteBlock);
            assert(ms[perm[i]] == ms2[i]);
        }
        if deletes_lines(ms) {
            let i = choose|i: int|
                0 <= i < ms.len() && (ms[i].kind is DeleteLine || ms[i].kind is DeleteBlock);
            assert(perm.contains(i));
            let k = choose|k: int| 0 <= k < n && perm[k] == i;
            assert(ms2[k] == ms[i]);
        }
    }
}

/// Without a line or block deletion, fixing never collapses blank lines:
/// the text is the fixes applied and nothing more.
pub proof fn lemma_no_collapse_without_deletions(t: Seq<u8>, ms: Seq<MatchView>)
    requires
        forall|i: int| 0 <= i < ms.len() ==> !((#[trigger] ms[i]).kind is DeleteLine || ms[i].kind is DeleteBlock),
    ensures
        fixed_text(t, ms) == apply_all(t, application_order(ms)),
{
}

/// Applies one match's fix to `content`.
fn apply_fix(content: &mut String, m: &Match)
    ensures
        encode_utf8(final(content)@) == apply_step(encode_utf8(old(content)@), m@),
{
    match &m.kind {
        MatchKind::Replace(s) => {
            let rep: &str = s.as_str();
            replace_checked(content, m.byte_range.start, m.byte_range.end, rep);
        },
        MatchKind::DeleteLine | MatchKind::DeleteBlock => {
            proof {
                reveal_strlit("");
                assert(""@ =~= Seq::<char>::empty());
                assert(encode_utf8(Seq::<char>::empty()) == Seq::<u8>::empty());
            }
            replace_checked(content, m.byte_range.start, m.byte_range.end, "");
        },
        MatchKind::FlagOnly => {},
    }
}

/// Apply the fixes of all matches to `content`, from the last start
/// backwards; when a line or block is deleted, collapse blank lines after.
pub fn apply_matches(content: &str, matches: &[Match]) -> (r: String)
    ensures
        encode_utf8(r@) == fixed_text(content.spec_bytes(), views(matches@)),
{
    let ghost ms = views(matches@);
    let mut keys: Vec<usize> = Vec::new();
    let mut i: usize = 0;
    while i < matches.len()
        invariant
            i <= matches@.len(),
            ms == views(matches@),
            keys@.len() == i,
            forall|k: int| 0 <= k < i ==> keys@[k] == reverse_start_keys(ms)[k],
        decreases matches@.len() - i,
    {
        keys.push(usize::MAX - matches[i].byte_range.start);
        i = i + 1;
    }
    assert(keys@ == reverse_start_keys(ms));
    let order = stable_order(&keys);
    proof {
        lemma_sort_order(keys@, keys@.len() as int);
    }
    let ghost so = sort_order(keys@, keys@.len() as int);
    let ghost app = application_order(ms);
    let mut result = String::new();
    push_str(&mut result, content);
    assert(encode_utf8(Seq::<char>::empty()) == Seq::<u8>::empty());
    let mut needs_collapse = false;
    let mut k: usize = 0;
    while k < order.len()
        invariant
            k <= order@.len(),
            order@.len() == matches@.len(),
            ms == views(matches@),
            so.len() == matches@.len(),
            forall|q: int| 0 <= q < order@.len() ==> order@[q] as int == so[q],
            forall|q: int| 0 <= q < so.len() ==> 0 <= #[trigger] so[q] < so.len(),
            forall|i: int| 0 <= i < so.len() ==> so.contains(i),
            app == Seq::new(ms.len(), |q: int| ms[so[q]]),
            encode_utf8(result@) == apply_all(content.spec_bytes(), app.subrange(0, k as int)),
            needs_collapse == exists|q: int|
                0 <= q < k && (app[q].kind is DeleteLine || app[q].kind is DeleteBlock),
        decreases order@.len() - k,
    {
        assert(order@[k as int] as int == so[k as int]);
        assert(0 <= so[k as int] < so.len());
        let m = &matches[order[k]];
        assert(m@ == app[k as int]);
        if matches!(m.kind, MatchKind::DeleteLine | MatchKind::DeleteBlock) {
            needs_collapse = true;
        }
        apply_fix(&mut result, m);
        assert(app.subrange(0, k + 1).drop_last() == app.subrange(0, k as int));
        k = k + 1;
    }
    assert(app.subrange(0, app.len() as int) == app);
    assert(needs_collapse == deletes_lines(ms)) by {
        if needs_collapse {
            let q = choose|q: int|
                0 <= q < app.len() && (app[q].kind is DeleteLine || app[q].kind is DeleteBlock);
            assert(ms[so[q]] == app[q]);
        }
        if deletes_lines(ms) {
            let i = choose|i: int|
                0 <= i < ms.len() && (ms[i].kind is DeleteLine || ms[i].kind is DeleteBlock);
            assert(so.contains(i));
            let q = choose|q: int| 0 <= q < so.len() && so[q] == i;
            assert(app[q] == ms[i]);
        }
    }
    if needs_collapse {
        collapse_blank_lines(&mut result);
    }
    result
}


// ---------------------------------------------------------------------------
// Running the rules on a file
// ---------------------------------------------------------------------------

/// The rule runs on the file: a code-only rule runs on code files only.
pub open spec fn rule_applies(f: FileTypeFilter, ft: FileType) -> bool {
    !(f == FileTypeFilter::CodeOnly && ft != FileType::Code)
}

/// Some comment span covers the match.
pub open spec fn in_comment(cs: Seq<Span>, m: MatchView) -> bool {
    exists|k: int| 0 <= k < cs.len() && cs[k].start <= m.start && m.end <= cs[k].end
}

/// A match survives filtering: it is confident enough, and in a code file a
/// prose match lies inside a comment.
pub open spec fn kept(m: MatchView, ft: FileType, min: u32, cs: Seq<Span>) -> bool {
    m.confidence >= min && !(ft == FileType::Code && m.category == Category::Prose && !in_comment(
        cs,
        m,
    ))
}

/// The match deletes a line or a block.
pub open spec fn deletes(m: MatchView) -> bool {
    m.kind is DeleteLine || m.kind is DeleteBlock
}

/// Where the line holding byte `s` starts: just after the last newline
/// before `s`, or at 0.
pub open spec fn line_start(b: Seq<u8>, s: int) -> int
    decreases s,
{
    if s <= 0 {
        0
    } else if b[s - 1] == 10u8 {
        s
    } else {
        line_start(b, s - 1)
    }
}

/// Where the search for the end of a deleted range's line begins: before a
/// newline the range already ends with.
pub open spec fn search_end(b: Seq<u8>, e: int) -> int {
    if 0 < e <= b.len() && b[e - 1] == 10u8 {
        e - 1
    } else {
        e
    }
}

/// Where the line holding byte `p` ends, with its newline: just after the
/// first newline at or after `p`, or at the end of the text.
pub open spec fn line_end(b: Seq<u8>, p: int) -> int
    decreases b.len() - p,
{
    if p < 0 || p >= b.len() {
        b.len() as int
    } else if b[p] == 10u8 {
        p + 1
    } else {
        line_end(b, p + 1)
    }
}

/// A match that deletes a line or a block grows to whole lines, with the
/// newline of the last one.
pub open spec fn extended(b: Seq<u8>, m: MatchView) -> MatchView {
    if deletes(m) {
        MatchView { start: line_start(b, m.start), end: line_end(b, search_end(b, m.end)), ..m }
    } else {
        m
    }
}

/// The line of a deleting match can be found: its start and the place the
/// search for its end begins lie between characters.
pub open spec fn ext_ok(b: Seq<u8>, m: MatchView) -> bool {
    !deletes(m) || (boundary(b, m.start) && boundary(b, search_end(b, m.end)))
}

/// The kept matches of rule `r`, in order, extended to whole lines where
/// they delete lines, each with the rule's index.
pub open spec fn rule_candidates(
    b: Seq<u8>,
    ms: Seq<MatchView>,
    r: int,
    ft: FileType,
    min: u32,
    cs: Seq<Span>,
) -> Seq<(int, MatchView)>
    decreases ms.len(),
{
    if ms.len() == 0 {
        seq![]
    } else {
        let prev = rule_candidates(b, ms.drop_last(), r, ft, min, cs);
        if kept(ms.last(), ft, min, cs) {
            prev.push((r, extended(b, ms.last())))
        } else {
            prev
        }
    }
}

/// Every kept match of a rule can be extended.
pub open spec fn rule_ok(b: Seq<u8>, ms: Seq<MatchView>, ft: FileType, min: u32, cs: Seq<Span>) -> bool {
    forall|k: int| 0 <= k < ms.len() && kept(#[trigger] ms[k], ft, min, cs) ==> ext_ok(b, ms[k])
}

/// The candidates of the first `n` rules that apply to the file, in
/// registry order.
pub open spec fn candidates(
    content: Seq<char>,
    rules: Seq<Rule>,
    n: int,
    ft: FileType,
    min: u32,
    cs: Seq<Span>,
) -> Seq<(int, MatchView)>
    decreases n,
{
    if n <= 0 {
        seq![]
    } else {
        candidates(content, rules, n - 1, ft, min, cs) + if rule_applies(
            rules[n - 1].spec_filter(),
            ft,
        ) {
            rule_candidates(encode_utf8(content), rules[n - 1].spec_check(content), n - 1, ft, min, cs)
        } else {
            seq![]
        }
    }
}

/// The comment spans the rules see in a file with the given extension.
pub open spec fn file_spans(content: Seq<char>, ext: Option<Seq<char>>) -> Seq<Span> {
    spec_comment_spans(content, ext)
}

/// Processing can go through: every rule that applies can report on the
/// text, and every kept deleting match can be extended to whole lines.
pub open spec fn process_ok(
    content: Seq<char>,
    rules: Seq<Rule>,
    ft: FileType,
    min: u32,
    ext: Option<Seq<char>>,
) -> bool {
    forall|r: int|
        0 <= r < rules.len() && rule_applies(#[trigger] rules[r].spec_filter(), ft) ==> rules[r].spec_total(
            content,
        ) && rule_ok(
            encode_utf8(content),
            rules[r].spec_check(content),
            ft,
            min,
            file_spans(content, ext),
        )
}

/// The starts of the candidates, as sort keys.
pub open spec fn start_keys(c: Seq<(int, MatchView)>) -> Seq<usize> {
    Seq::new(c.len(), |i: int| c[i].1.start as usize)
}

/// The candidates in a stable order by start.
pub open spec fn by_start(c: Seq<(int, MatchView)>) -> Seq<(int, MatchView)> {
    let o = sort_order(start_keys(c), c.len() as int);
    Seq::new(c.len(), |k: int| c[o[k]])
}

/// Where the overlap group that has reached `j` with end `me` ends: the
/// group takes each next candidate that starts before its furthest end.
pub open spec fn group_end(s: Seq<(int, MatchView)>, j: int, me: int) -> int
    decreases s.len() - j,
{
    if j < 0 || j >= s.len() || s[j].1.start >= me {
        j
    } else {
        group_end(
            s,
            j + 1,
            if s[j].1.end > me {
                s[j].1.end
            } else {
                me
            },
        )
    }
}

/// The member of the group `[i, j)` from the rule with the lowest registry
/// index; the first such member on a tie.
pub open spec fn winner(s: Seq<(int, MatchView)>, i: int, j: int) -> int
    decreases j - i,
{
    if j <= i + 1 {
        i
    } else {
        let w = winner(s, i, j - 1);
        if s[j - 1].0 < s[w].0 {
            j - 1
        } else {
            w
        }
    }
}

/// A group ends no earlier than where it has reached and within the list.
pub proof fn lemma_group_end(s: Seq<(int, MatchView)>, j: int, me: int)
    requires
        0 <= j <= s.len(),
    ensures
        j <= group_end(s, j, me) <= s.len(),
    decreases s.len() - j,
{
    if j < s.len() && s[j].1.start < me {
        lemma_group_end(
            s,
            j + 1,
            if s[j].1.end > me {
                s[j].1.end
            } else {
                me
            },
        );
    }
}

/// The winner of a non-empty group is one of its members.
pub proof fn lemma_winner(s: Seq<(int, MatchView)>, i: int, j: int)
    requires
        i < j,
    ensures
        i <= winner(s, i, j) < j,
    decreases j - i,
{
    if j > i + 1 {
        lemma_winner(s, i, j - 1);
    }
}

/// The resolved matches from position `i` of the sorted candidates on: one
/// per overlap group, the match of the rule with the lowest registry index.
pub open spec fn resolve_from(s: Seq<(int, MatchView)>, i: int) -> Seq<MatchView>
    decreases s.len() - i,
{
    if i < 0 || i >= s.len() {
        seq![]
    } else {
        let j = group_end(s, i + 1, s[i].1.end);
        proof {
            lemma_group_end(s, i + 1, s[i].1.end);
        }
        seq![s[winner(s, i, j)].1] + resolve_from(s, j)
    }
}

/// The winner of a group has the lowest rule index of its members.
proof fn lemma_winner_lowest(s: Seq<(int, MatchView)>, i: int, j: int)
    requires
        i < j,
    ensures
        forall|q: int| i <= q < j ==> s[winner(s, i, j)].0 <= #[trigger] s[q].0,
    decreases j - i,
{
    if j > i + 1 {
        lemma_winner_lowest(s, i, j - 1);
    }
}

/// Overlaps are resolved in favour of the earliest rule in the registry:
/// from each position `i` of the candidates (rule index, match) sorted by
/// start, the first resolved match is a member of the overlap group that
/// starts at `i` whose rule index is no greater than that of any other
/// member; resolution then goes on after the group.
pub proof fn lemma_resolve_lowest_index(s: Seq<(int, MatchView)>, i: int)
    requires
        0 <= i < s.len(),
    ensures
        ({
            let j = group_end(s, i + 1, s[i].1.end);
            &&& i < j <= s.len()
            &&& exists|w: int|
                i <= w < j && resolve_from(s, i)[0] == s[w].1 && forall|q: int|
                    i <= q < j ==> s[w].0 <= #[trigger] s[q].0
            &&& resolve_from(s, i) == seq![resolve_from(s, i)[0]] + resolve_from(s, j)
        }),
{
    let j = group_end(s, i + 1, s[i].1.end);
    lemma_group_end(s, i + 1, s[i].1.end);
    lemma_winner(s, i, j);
    lemma_winner_lowest(s, i, j);
    let w = winner(s, i, j);
    assert(resolve_from(s, i) == seq![s[w].1] + resolve_from(s, j));
    assert(resolve_from(s, i)[0] == s[w].1);
}

/// Every candidate of processing comes from a rule that applies to the
/// file: its first part is that rule's registry index, and its match is
/// one of the rule's matches, extended to whole lines where it deletes
/// them.
pub proof fn lemma_candidate_origin(
    content: Seq<char>,
    rules: Seq<Rule>,
    n: int,
    ft: FileType,
    min: u32,
    cs: Seq<Span>,
)
    requires
        0 <= n <= rules.len(),
    ensures
        forall|k: int|
            0 <= k < candidates(content, rules, n, ft, min, cs).len() ==> {
                let c = #[trigger] candidates(content, rules, n, ft, min, cs)[k];
                &&& 0 <= c.0 < n
                &&& rule_applies(rules[c.0].spec_filter(), ft)
                &&& exists|m: int|
                    0 <= m < rules[c.0].spec_check(content).len() && kept(
                        rules[c.0].spec_check(content)[m],
                        ft,
                        min,
                        cs,
                    ) && c.1 == extended(encode_utf8(content), rules[c.0].spec_check(content)[m])
            },
    decreases n,
{
    if n > 0 {
        lemma_candidate_origin(content, rules, n - 1, ft, min, cs);
        let b = encode_utf8(content);
        let ms = rules[n - 1].spec_check(content);
        let a = candidates(content, rules, n - 1, ft, min, cs);
        let c = candidates(content, rules, n, ft, min, cs);
        if rule_applies(rules[n - 1].spec_filter(), ft) {
            let rc = rule_candidates(b, ms, n - 1, ft, min, cs);
            lemma_rule_candidates_origin(b, ms, n - 1, ft, min, cs);
            assert(c == a + rc);
            assert forall|k: int| 0 <= k < c.len() implies {
                let x = #[trigger] c[k];
                &&& 0 <= x.0 < n
                &&& rule_applies(rules[x.0].spec_filter(), ft)
                &&& exists|m: int|
                    0 <= m < rules[x.0].spec_check(content).len() && kept(
                        rules[x.0].spec_check(content)[m],
                        ft,
                        min,
                        cs,
                    ) && x.1 == extended(b, rules[x.0].spec_check(content)[m])
            } by {
                if k < a.len() {
                    assert(c[k] == a[k]);
                } else {
                    assert(c[k] == rc[k - a.len()]);
                }
            }
        } else {
            assert(c =~= a);
        }
    }
}

proof fn lemma_rule_candidates_origin(b: Seq<u8>, ms: Seq<MatchView>, r: int, ft: FileType, min: u32, cs: Seq<Span>)
    ensures
        forall|k: int|
            0 <= k < rule_candidates(b, ms, r, ft, min, cs).len() ==> {
                let c = #[trigger] rule_candidates(b, ms, r, ft, min, cs)[k];
                &&& c.0 == r
                &&& exists|m: int| 0 <= m < ms.len() && kept(ms[m], ft, min, cs) && c.1 == extended(b, ms[m])
            },
    decreases ms.len(),
{
    if ms.len() > 0 {
        lemma_rule_candidates_origin(b, ms.drop_last(), r, ft, min, cs);
        let p = rule_candidates(b, ms.drop_last(), r, ft, min, cs);
        let c = rule_candidates(b, ms, r, ft, min, cs);
        assert forall|k: int| 0 <= k < c.len() implies {
            let x = #[trigger] c[k];
            &&& x.0 == r
            &&& exists|m: int| 0 <= m < ms.len() && kept(ms[m], ft, min, cs) && x.1 == extended(b, ms[m])
        } by {
            if k < p.len() {
                assert(c[k] == p[k]);
                let m = choose|m: int|
                    0 <= m < ms.drop_last().len() && kept(ms.drop_last()[m], ft, min, cs) && p[k].1 == extended(
                        b,
                        ms.drop_last()[m],
                    );
                assert(ms.drop_last()[m] == ms[m]);
            } else {
                assert(c[k] == (r, extended(b, ms.last())));
                assert(ms.last() == ms[ms.len() - 1]);
            }
        }
    }
}

/// The matches processing a file reports: every kept match of every rule
/// that applies, extended to whole lines where it deletes lines, in order
/// of start, with overlaps resolved in favour of the earlier rule.
pub open spec fn spec_process(
    content: Seq<char>,
    rules: Seq<Rule>,
    ft: FileType,
    min: u32,
    ext: Option<Seq<char>>,
) -> Seq<MatchView> {
    resolve_from(
        by_start(
            candidates(content, rules, rules.len() as int, ft, min, file_spans(content, ext)),
        ),
        0,
    )
}

/// A reported match passed filtering: it is confident enough, and in a code
/// file a prose match lies inside a comment (or deletes whole lines).
pub open spec fn passes_filter(m: MatchView, ft: FileType, min: u32, cs: Seq<Span>) -> bool {
    &&& m.confidence >= min
    &&& ft == FileType::Code && m.category == Category::Prose ==> in_comment(cs, m) || deletes(m)
}

proof fn lemma_rule_candidates_pass(
    b: Seq<u8>,
    ms: Seq<MatchView>,
    r: int,
    ft: FileType,
    min: u32,
    cs: Seq<Span>,
)
    ensures
        forall|k: int|
            0 <= k < rule_candidates(b, ms, r, ft, min, cs).len() ==> passes_filter(
                (#[trigger] rule_candidates(b, ms, r, ft, min, cs)[k]).1,
                ft,
                min,
                cs,
            ),
    decreases ms.len(),
{
    if ms.len() > 0 {
        lemma_rule_candidates_pass(b, ms.drop_last(), r, ft, min, cs);
        let prev = rule_candidates(b, ms.drop_last(), r, ft, min, cs);
        let all = rule_candidates(b, ms, r, ft, min, cs);
        let m = ms.last();
        if kept(m, ft, min, cs) {
            let e = extended(b, m);
            assert(passes_filter(e, ft, min, cs)) by {
                if !deletes(m) {
                    assert(e == m);
                }
            }
            assert(all == prev.push((r, e)));
            assert forall|k: int| 0 <= k < all.len() implies passes_filter((#[trigger] all[k]).1, ft, min, cs) by {
                if k < prev.len() {
                    assert(all[k] == prev[k]);
                }
            }
        }
    }
}

proof fn lemma_candidates_pass(
    content: Seq<char>,
    rules: Seq<Rule>,
    n: int,
    ft: FileType,
    min: u32,
    cs: Seq<Span>,
)
    ensures
        forall|k: int|
            0 <= k < candidates(content, rules, n, ft, min, cs).len() ==> passes_filter(
                (#[trigger] candidates(content, rules, n, ft, min, cs)[k]).1,
                ft,
                min,
                cs,
            ),
    decreases n,
{
    if n > 0 {
        lemma_candidates_pass(content, rules, n - 1, ft, min, cs);
        let b = encode_utf8(content);
        let ms = rules[n - 1].spec_check(content);
        lemma_rule_candidates_pass(b, ms, n - 1, ft, min, cs);
        let a = candidates(content, rules, n - 1, ft, min, cs);
        let c = candidates(content, rules, n, ft, min, cs);
        let rc = if rule_applies(rules[n - 1].spec_filter(), ft) {
            rule_candidates(b, ms, n - 1, ft, min, cs)
        } else {
            seq![]
        };
        assert(c == a + rc);
        assert forall|k: int| 0 <= k < c.len() implies passes_filter((#[trigger] c[k]).1, ft, min, cs) by {
            if k < a.len() {
                assert(c[k] == a[k]);
            } else {
                assert(c[k] == rc[k - a.len()]);
            }
        }
    }
}

proof fn lemma_resolve_pass(s: Seq<(int, MatchView)>, i: int, ft: FileType, min: u32, cs: Seq<Span>)
    requires
        forall|k: int| 0 <= k < s.len() ==> passes_filter((#[trigger] s[k]).1, ft, min, cs),
    ensures
        forall|k: int|
            0 <= k < resolve_from(s, i).len() ==> passes_filter(#[trigger] resolve_from(s, i)[k], ft, min, cs),
    decreases s.len() - i,
{
    if 0 <= i < s.len() {
        let j = group_end(s, i + 1, s[i].1.end);
        lemma_group_end(s, i + 1, s[i].1.end);
        lemma_winner(s, i, j);
        lemma_resolve_pass(s, j, ft, min, cs);
        let r = resolve_from(s, i);
        assert forall|k: int| 0 <= k < r.len() implies passes_filter(#[trigger] r[k], ft, min, cs) by {
            if k > 0 {
                assert(r[k] == resolve_from(s, j)[k - 1]);
            }
        }
    }
}

/// Every match processing reports passed filtering: it is at least as
/// confident as the threshold, and in a code file a prose match lies inside
/// a comment (or deletes whole lines).
pub proof fn lemma_process_filtered(
    content: Seq<char>,
    rules: Seq<Rule>,
    ft: FileType,
    min: u32,
    ext: Option<Seq<char>>,
)
    ensures
        forall|k: int|
            0 <= k < spec_process(content, rules, ft, min, ext).len() ==> passes_filter(
                #[trigger] spec_process(content, rules, ft, min, ext)[k],
                ft,
                min,
                file_spans(content, ext),
            ),
{
    let cs = file_spans(content, ext);
    let c = candidates(content, rules, rules.len() as int, ft, min, cs);
    lemma_candidates_pass(content, rules, rules.len() as int, ft, min, cs);
    let keys = start_keys(c);
    lemma_sort_order(keys, c.len() as int);
    let o = sort_order(keys, c.len() as int);
    let s = by_start(c);
    assert forall|k: int| 0 <= k < s.len() implies passes_filter((#[trigger] s[k]).1, ft, min, cs) by {
        assert(s[k] == c[o[k]]);
    }
    lemma_resolve_pass(s, 0, ft, min, cs);
}

/// The candidates as pairs of rule index and match.
pub open spec fn pairs(regs: Seq<usize>, ms: Seq<Match>) -> Seq<(int, MatchView)> {
    Seq::new(ms.len(), |k: int| (regs[k] as int, ms[k]@))
}

/// Whether some comment span covers the range.
fn inside_comment(spans: &Vec<Span>, m: &Match) -> (r: bool)
    ensures
        r == in_comment(spans@, m@),
{
    let mut k: usize = 0;
    while k < spans.len()
        invariant
            k <= spans@.len(),
            forall|q: int|
                0 <= q < k ==> !(spans@[q].start <= m@.start && m@.end <= spans@[q].end),
        decreases spans@.len() - k,
    {
        if spans[k].contains_range(&m.byte_range) {
            return true;
        }
        k = k + 1;
    }
    false
}

/// Where the line holding byte `s` starts.
fn find_line_start(content: &str, s: usize) -> (r: usize)
    requires
        s <= content.spec_bytes().len(),
    ensures
        r as int == line_start(content.spec_bytes(), s as int),
{
    let b = content.as_bytes();
    let mut p: usize = s;
    while p > 0 && b[p - 1] != 10u8
        invariant
            p <= s <= b@.len(),
            b@ == content.spec_bytes(),
            line_start(b@, s as int) == line_start(b@, p as int),
        decreases p,
    {
        p = p - 1;
    }
    p
}

/// Where the line holding byte `p` ends, with its newline.
fn find_line_end(content: &str, p: usize) -> (r: usize)
    requires
        p <= content.spec_bytes().len(),
    ensures
        r as int == line_end(content.spec_bytes(), p as int),
{
    let b = content.as_bytes();
    let n = b.len();
    let mut q: usize = p;
    while q < n && b[q] != 10u8
        invariant
            p <= q <= n,
            n == b@.len(),
            b@ == content.spec_bytes(),
            line_end(b@, p as int) == line_end(b@, q as int),
        decreases n - q,
    {
        q = q + 1;
    }
    if q < n {
        q + 1
    } else {
        n
    }
}

/// Appends the candidates of one rule's matches; `false` when a kept
/// deleting match cannot be extended to whole lines.
fn collect_rule(
    regs: &mut Vec<usize>,
    out: &mut Vec<Match>,
    content: &str,
    v: &Vec<Match>,
    r: usize,
    ft: FileType,
    min: u32,
    spans: &Vec<Span>,
) -> (ok: bool)
    requires
        content.spec_bytes().len() < usize::MAX,
        old(regs)@.len() == old(out)@.len(),
    ensures
        final(regs)@.len() == final(out)@.len(),
        ok == rule_ok(content.spec_bytes(), views(v@), ft, min, spans@),
        ok ==> pairs(final(regs)@, final(out)@) == pairs(old(regs)@, old(out)@) + rule_candidates(
            content.spec_bytes(),
            views(v@),
            r as int,
            ft,
            min,
            spans@,
        ),
{
    let ghost b = content.spec_bytes();
    let ghost vv = views(v@);
    let ghost start = pairs(regs@, out@);
    let mut k: usize = 0;
    while k < v.len()
        invariant
            b == content.spec_bytes(),
            b.len() < usize::MAX,
            vv == views(v@),
            k <= v@.len(),
            regs@.len() == out@.len(),
            forall|q: int| 0 <= q < k && kept(#[trigger] vv[q], ft, min, spans@) ==> ext_ok(b, vv[q]),
            pairs(regs@, out@) == start + rule_candidates(b, vv.take(k as int), r as int, ft, min, spans@),
        decreases v@.len() - k,
    {
        let m = &v[k];
        assert(vv[k as int] == m@);
        assert(vv.take(k + 1).drop_last() =~= vv.take(k as int));
        assert(vv.take(k + 1).last() == m@);
        let keep = m.confidence >= min && !(ft == FileType::Code && m.category == Category::Prose
            && !inside_comment(spans, m));
        if keep {
            let mut c = m.duplicate();
            if matches!(m.kind, MatchKind::DeleteLine | MatchKind::DeleteBlock) {
                let s = m.byte_range.start;
                let e = m.byte_range.end;
                let se = if e > 0 && e <= content.len() && content.as_bytes()[e - 1] == 10u8 {
                    e - 1
                } else {
                    e
                };
                if !(at_boundary(content, s) && at_boundary(content, se)) {
                    return false;
                }
                let ls = find_line_start(content, s);
                let le = find_line_end(content, se);
                c.byte_range = Range { start: ls, end: le };
            }
            let ghost before = pairs(regs@, out@);
            regs.push(r);
            out.push(c);
            assert(pairs(regs@, out@) =~= before.push((r as int, extended(b, m@))));
        }
        k = k + 1;
    }
    assert(vv.take(v@.len() as int) == vv);
    true
}

/// The candidates of every rule that applies to the file, in registry
/// order; `None` when processing cannot go through.
fn collect_candidates(
    content: &str,
    rules: &[Rule],
    file_type: FileType,
    min: u32,
    spans: &Vec<Span>,
) -> (r: Option<(Vec<usize>, Vec<Match>)>)
    requires
        content.spec_bytes().len() < usize::MAX,
    ensures
        r is Some <==> forall|q: int|
            0 <= q < rules@.len() && rule_applies(#[trigger] rules@[q].spec_filter(), file_type)
                ==> rules@[q].spec_total(content@) && rule_ok(
                content.spec_bytes(),
                rules@[q].spec_check(content@),
                file_type,
                min,
                spans@,
            ),
        r matches Some((regs, ms)) ==> regs@.len() == ms@.len() && pairs(regs@, ms@) == candidates(
            content@,
            rules@,
            rules@.len() as int,
            file_type,
            min,
            spans@,
        ),
{
    let ghost b = content.spec_bytes();
    let mut regs: Vec<usize> = Vec::new();
    let mut out: Vec<Match> = Vec::new();
    let mut r: usize = 0;
    while r < rules.len()
        invariant
            b == content.spec_bytes(),
            b.len() < usize::MAX,
            r <= rules@.len(),
            regs@.len() == out@.len(),
            forall|q: int|
                0 <= q < r && rule_applies(#[trigger] rules@[q].spec_filter(), file_type)
                    ==> rules@[q].spec_total(content@) && rule_ok(
                    b,
                    rules@[q].spec_check(content@),
                    file_type,
                    min,
                    spans@,
                ),
            pairs(regs@, out@) == candidates(content@, rules@, r as int, file_type, min, spans@),
        decreases rules@.len() - r,
    {
        let rule = &rules[r];
        let f = rule.file_type_filter();
        if f == FileTypeFilter::CodeOnly && file_type != FileType::Code {
            assert(candidates(content@, rules@, r + 1, file_type, min, spans@) =~= candidates(
                content@,
                rules@,
                r as int,
                file_type,
                min,
                spans@,
            ));
        } else {
            match rule.try_check(content, Some(spans.as_slice())) {
                None => {
                    return None;
                },
                Some(v) => {
                    if !collect_rule(&mut regs, &mut out, content, &v, r, file_type, min, spans) {
                        return None;
                    }
                },
            }
        }
        r = r + 1;
    }
    Some((regs, out))
}

/// The kept matches of the rules on a file, resolved, and the text with
/// their fixes applied; `None` when processing cannot go through (a rule
/// that cannot report on this text, or a deleting match whose line cannot be
/// found).
pub fn try_process_file(
    content: &str,
    rules: &[Rule],
    file_type: FileType,
    min_confidence: u32,
    file_ext: Option<&str>,
) -> (r: Option<(String, Vec<Match>)>)
    requires
        content.spec_bytes().len() < usize::MAX,
    ensures
        r is Some <==> process_ok(content@, rules@, file_type, min_confidence, opt_view(file_ext)),
        r matches Some((t, ms)) ==> views(ms@) == spec_process(
            content@,
            rules@,
            file_type,
            min_confidence,
            opt_view(file_ext),
        ) && encode_utf8(t@) == fixed_text(
            content.spec_bytes(),
            spec_process(content@, rules@, file_type, min_confidence, opt_view(file_ext)),
        ),
        r matches Some((t, ms)) ==> encode_utf8(t@) == fixed_text(content.spec_bytes(), views(ms@)),
{
    let spans = extract_comment_spans(content, file_ext);
    let (regs, cands) = match collect_candidates(content, rules, file_type, min_confidence, &spans) {
        Some(x) => x,
        None => {
            return None;
        },
    };
    let ghost c = pairs(regs@, cands@);
    let n = cands.len();
    let mut keys: Vec<usize> = Vec::new();
    let mut i: usize = 0;
    while i < n
        invariant
            n == cands@.len(),
            i <= n,
            keys@.len() == i,
            forall|k: int| 0 <= k < i ==> keys@[k] == cands@[k].byte_range.start,
        decreases n - i,
    {
        keys.push(cands[i].byte_range.start);
        i = i + 1;
    }
    let ghost ckeys = start_keys(c);
    assert(keys@ =~= ckeys);
    let order = stable_order(&keys);
    proof {
        lemma_sort_order(keys@, keys@.len() as int);
    }
    let ghost so = sort_order(keys@, keys@.len() as int);
    let ghost sv = by_start(c);
    let mut sregs: Vec<usize> = Vec::new();
    let mut sorted: Vec<Match> = Vec::new();
    let mut k: usize = 0;
    while k < n
        invariant
            n == cands@.len() == regs@.len() == order@.len() == so.len(),
            c == pairs(regs@, cands@),
            keys@ == ckeys,
            ckeys == start_keys(c),
            sv == by_start(c),
            so == sort_order(keys@, keys@.len() as int),
            forall|q: int| 0 <= q < n ==> order@[q] as int == so[q],
            forall|q: int| 0 <= q < n ==> 0 <= #[trigger] so[q] < n,
            k <= n,
            sregs@.len() == k,
            sorted@.len() == k,
            forall|q: int| 0 <= q < k ==> (sregs@[q] as int, sorted@[q]@) == #[trigger] sv[q],
        decreases n - k,
    {
        let o = order[k];
        assert(o as int == so[k as int]);
        assert(sv[k as int] == c[o as int]);
        assert(c[o as int] == (regs@[o as int] as int, cands@[o as int]@));
        sregs.push(regs[o]);
        let d = cands[o].duplicate();
        sorted.push(d);
        assert(sorted@[k as int]@ == cands@[o as int]@);
        k = k + 1;
    }
    assert(pairs(sregs@, sorted@) =~= sv);
    let mut resolved: Vec<Match> = Vec::new();
    let mut i: usize = 0;
    while i < n
        invariant
            n == sorted@.len() == sregs@.len() == sv.len(),
            pairs(sregs@, sorted@) == sv,
            i <= n,
            views(resolved@) + resolve_from(sv, i as int) == resolve_from(sv, 0),
        decreases n - i,
    {
        assert(pairs(sregs@, sorted@)[i as int] == sv[i as int]);
        let mut max_end: usize = sorted[i].byte_range.end;
        let mut w: usize = i;
        let mut j: usize = i + 1;
        while j < n && sorted[j].byte_range.start < max_end
            invariant
                n == sorted@.len() == sregs@.len() == sv.len(),
                pairs(sregs@, sorted@) == sv,
                i < j <= n,
                i <= w < j,
                group_end(sv, i + 1, sv[i as int].1.end) == group_end(sv, j as int, max_end as int),
                winner(sv, i as int, j as int) == w,
            decreases n - j,
        {
            assert(pairs(sregs@, sorted@)[j as int] == sv[j as int]);
            assert(pairs(sregs@, sorted@)[w as int] == sv[w as int]);
            if sregs[j] < sregs[w] {
                w = j;
            }
            if sorted[j].byte_range.end > max_end {
                max_end = sorted[j].byte_range.end;
            }
            j = j + 1;
        }
        proof {
            if j < n {
                assert(pairs(sregs@, sorted@)[j as int] == sv[j as int]);
            }
            assert(group_end(sv, j as int, max_end as int) == j);
            assert(pairs(sregs@, sorted@)[w as int] == sv[w as int]);
        }
        let ghost before = views(resolved@);
        resolved.push(sorted[w].duplicate());
        assert(views(resolved@) =~= before.push(sv[w as int].1));
        assert(resolve_from(sv, i as int) == seq![sv[w as int].1] + resolve_from(sv, j as int));
        assert(views(resolved@) + resolve_from(sv, j as int) =~= before + resolve_from(
            sv,
            i as int,
        ));
        i = j;
    }
    assert(views(resolved@) =~= resolve_from(sv, 0));
    let result = apply_matches(content, resolved.as_slice());
    Some((result, resolved))
}

/// Runs the rules on a file: keeps their matches above the confidence
/// threshold (prose matches in code files only inside comments), extends
/// line and block deletions to whole lines, resolves overlaps in favour of
/// the rule with the lowest registry index, and applies the fixes.
pub fn process_file(
    content: &str,
    rules: &[Rule],
    file_type: FileType,
    min_confidence: u32,
    file_ext: Option<&str>,
) -> (r: (String, Vec<Match>))
    requires
        content.spec_bytes().len() < usize::MAX,
        process_ok(content@, rules@, file_type, min_confidence, opt_view(file_ext)),
    ensures
        views(r.1@) == spec_process(content@, rules@, file_type, min_confidence, opt_view(file_ext)),
        encode_utf8(r.0@) == fixed_text(
            content.spec_bytes(),
            spec_process(content@, rules@, file_type, min_confidence, opt_view(file_ext)),
        ),
        encode_utf8(r.0@) == fixed_text(content.spec_bytes(), views(r.1@)),
{
    try_process_file(content, rules, file_type, min_confidence, file_ext).unwrap()
}


// ---------------------------------------------------------------------------
// What resolution guarantees
// ---------------------------------------------------------------------------

/// The candidates are in order of start.
pub open spec fn starts_sorted(s: Seq<(int, MatchView)>) -> bool {
    forall|k: int, l: int| 0 <= k < l < s.len() ==> s[k].1.start <= s[l].1.start
}

/// Every candidate's range is well formed.
pub open spec fn ranges_wf(s: Seq<(int, MatchView)>) -> bool {
    forall|k: int| 0 <= k < s.len() ==> #[trigger] s[k].1.start <= s[k].1.end
}

/// Matches in order of start, each ending before the next one starts.
pub open spec fn disjoint_in_order(ms: Seq<MatchView>) -> bool {
    &&& forall|k: int| 0 <= k < ms.len() ==> #[trigger] ms[k].start <= ms[k].end
    &&& forall|k: int| 0 <= k < ms.len() - 1 ==> #[trigger] ms[k].end <= ms[k + 1].start
}

/// The furthest end of the overlap group that has reached `j` with end `me`.
pub open spec fn group_max(s: Seq<(int, MatchView)>, j: int, me: int) -> int
    decreases s.len() - j,
{
    if j < 0 || j >= s.len() || s[j].1.start >= me {
        me
    } else {
        group_max(
            s,
            j + 1,
            if s[j].1.end > me {
                s[j].1.end
            } else {
                me
            },
        )
    }
}

proof fn lemma_group_max(s: Seq<(int, MatchView)>, j: int, me: int)
    requires
        0 <= j <= s.len(),
    ensures
        me <= group_max(s, j, me),
        forall|k: int| j <= k < group_end(s, j, me) ==> s[k].1.end <= group_max(s, j, me),
        group_end(s, j, me) < s.len() ==> s[group_end(s, j, me)].1.start >= group_max(s, j, me),
    decreases s.len() - j,
{
    if j < s.len() && s[j].1.start < me {
        let me2 = if s[j].1.end > me {
            s[j].1.end
        } else {
            me
        };
        lemma_group_max(s, j + 1, me2);
    }
}

proof fn lemma_resolve_sorted(s: Seq<(int, MatchView)>, i: int)
    requires
        starts_sorted(s),
        ranges_wf(s),
        0 <= i,
    ensures
        disjoint_in_order(resolve_from(s, i)),
        i < s.len() ==> forall|k: int|
            0 <= k < resolve_from(s, i).len() ==> #[trigger] resolve_from(s, i)[k].start
                >= s[i].1.start,
    decreases s.len() - i,
{
    if i < s.len() {
        let j = group_end(s, i + 1, s[i].1.end);
        lemma_group_end(s, i + 1, s[i].1.end);
        lemma_group_max(s, i + 1, s[i].1.end);
        let w = winner(s, i, j);
        lemma_winner(s, i, j);
        let rest = resolve_from(s, j);
        lemma_resolve_sorted(s, j);
        let all = resolve_from(s, i);
        assert(all == seq![s[w].1] + rest);
        assert(s[w].1.start <= s[w].1.end);
        if rest.len() > 0 {
            assert(rest[0].start >= s[j].1.start);
            assert(s[w].1.end <= group_max(s, i + 1, s[i].1.end));
        }
        assert forall|k: int| 0 <= k < all.len() - 1 implies #[trigger] all[k].end <= all[k + 1].start by {
            if k > 0 {
                assert(all[k] == rest[k - 1] && all[k + 1] == rest[k]);
            } else {
                assert(all[1] == rest[0]);
            }
        }
        assert forall|k: int| 0 <= k < all.len() implies #[trigger] all[k].start <= all[k].end by {
            if k > 0 {
                assert(all[k] == rest[k - 1]);
            }
        }
        assert forall|k: int| 0 <= k < all.len() implies #[trigger] all[k].start >= s[i].1.start by {
            if k > 0 {
                assert(all[k] == rest[k - 1]);
                assert(s[j].1.start >= s[i].1.start);
            }
        }
    }
}

/// Every match a rule reports on the text has a range inside it.
pub open spec fn rules_in_text(content: Seq<char>, rules: Seq<Rule>) -> bool {
    forall|r: int, k: int|
        0 <= r < rules.len() && 0 <= k < rules[r].spec_check(content).len() ==> {
            let m = #[trigger] rules[r].spec_check(content)[k];
            0 <= m.start <= m.end <= encode_utf8(content).len()
        }
}

proof fn lemma_line_start_bounds(b: Seq<u8>, s: int)
    requires
        0 <= s <= b.len(),
    ensures
        0 <= line_start(b, s) <= s,
    decreases s,
{
    if s > 0 && b[s - 1] != 10u8 {
        lemma_line_start_bounds(b, s - 1);
    }
}

proof fn lemma_line_end_bounds(b: Seq<u8>, p: int)
    requires
        0 <= p,
    ensures
        line_end(b, p) <= b.len(),
        p <= b.len() ==> p <= line_end(b, p),
    decreases b.len() - p,
{
    if p < b.len() && b[p] != 10u8 {
        lemma_line_end_bounds(b, p + 1);
    }
}

proof fn lemma_extended_wf(b: Seq<u8>, m: MatchView)
    requires
        0 <= m.start <= m.end <= b.len(),
    ensures
        0 <= extended(b, m).start <= extended(b, m).end <= b.len(),
{
    if deletes(m) {
        let se = search_end(b, m.end);
        lemma_line_start_bounds(b, m.start);
        lemma_line_end_bounds(b, se);
        if se < m.start {
            assert(se == m.end - 1 && m.start == m.end);
            assert(b[se] == 10u8);
            assert(line_end(b, se) == se + 1);
        }
    }
}

proof fn lemma_rule_candidates_wf(
    b: Seq<u8>,
    ms: Seq<MatchView>,
    r: int,
    ft: FileType,
    min: u32,
    cs: Seq<Span>,
)
    requires
        forall|k: int| 0 <= k < ms.len() ==> 0 <= #[trigger] ms[k].start <= ms[k].end <= b.len(),
    ensures
        forall|k: int|
            0 <= k < rule_candidates(b, ms, r, ft, min, cs).len() ==> 0 <= #[trigger] rule_candidates(
                b,
                ms,
                r,
                ft,
                min,
                cs,
            )[k].1.start <= rule_candidates(b, ms, r, ft, min, cs)[k].1.end <= b.len(),
    decreases ms.len(),
{
    if ms.len() > 0 {
        lemma_rule_candidates_wf(b, ms.drop_last(), r, ft, min, cs);
        lemma_extended_wf(b, ms.last());
    }
}

#[verifier::spinoff_prover]
#[verifier::rlimit(30)]
proof fn lemma_candidates_wf(
    content: Seq<char>,
    rules: Seq<Rule>,
    n: int,
    ft: FileType,
    min: u32,
    cs: Seq<Span>,
)
    requires
        0 <= n <= rules.len(),
        rules_in_text(content, rules),
    ensures
        forall|k: int|
            0 <= k < candidates(content, rules, n, ft, min, cs).len() ==> 0 <= #[trigger] candidates(
                content,
                rules,
                n,
                ft,
                min,
                cs,
            )[k].1.start <= candidates(content, rules, n, ft, min, cs)[k].1.end <= encode_utf8(
                content,
            ).len(),
    decreases n,
{
    if n > 0 {
        lemma_candidates_wf(content, rules, n - 1, ft, min, cs);
        let b = encode_utf8(content);
        let ms = rules[n - 1].spec_check(content);
        assert forall|k: int| 0 <= k < ms.len() implies 0 <= #[trigger] ms[k].start <= ms[k].end
            <= b.len() by {
            assert(rules[n - 1].spec_check(content)[k] == ms[k]);
        }
        lemma_rule_candidates_wf(b, ms, n - 1, ft, min, cs);
        let a = candidates(content, rules, n - 1, ft, min, cs);
        let c = candidates(content, rules, n, ft, min, cs);
        let rc = if rule_applies(rules[n - 1].spec_filter(), ft) {
            rule_candidates(b, ms, n - 1, ft, min, cs)
        } else {
            seq![]
        };
        assert(c == a + rc);
        assert forall|k: int| 0 <= k < c.len() implies 0 <= #[trigger] c[k].1.start <= c[k].1.end
            <= b.len() by {
            if k < a.len() {
                assert(c[k] == a[k]);
            } else {
                assert(c[k] == rc[k - a.len()]);
            }
        }
    }
}

/// Processing a file reports its matches in order of start, none
/// overlapping the next, when every rule's matches lie inside the text.
pub proof fn lemma_process_disjoint(
    content: Seq<char>,
    rules: Seq<Rule>,
    ft: FileType,
    min: u32,
    ext: Option<Seq<char>>,
)
    requires
        encode_utf8(content).len() < usize::MAX,
        rules_in_text(content, rules),
    ensures
        disjoint_in_order(spec_process(content, rules, ft, min, ext)),
{
    let cs = file_spans(content, ext);
    let c = candidates(content, rules, rules.len() as int, ft, min, cs);
    lemma_candidates_wf(content, rules, rules.len() as int, ft, min, cs);
    let keys = start_keys(c);
    lemma_sort_order(keys, c.len() as int);
    let o = sort_order(keys, c.len() as int);
    let s = by_start(c);
    assert forall|k: int| 0 <= k < s.len() implies #[trigger] s[k].1.start <= s[k].1.end by {
        assert(0 <= o[k] < c.len());
        assert(s[k] == c[o[k]]);
    }
    assert forall|k: int, l: int| 0 <= k < l < s.len() implies s[k].1.start <= s[l].1.start by {
        assert(0 <= o[k] < c.len() && 0 <= o[l] < c.len());
        assert(s[k] == c[o[k]] && s[l] == c[o[l]]);
        assert(keys[o[k]] <= keys[o[l]]);
        assert(c[o[k]].1.start <= c[o[k]].1.end);
    }
    lemma_resolve_sorted(s, 0);
}


/// The text ends with two newlines: a trailing blank line.
pub open spec fn ends_blank(s: Seq<u8>) -> bool {
    s.len() >= 2 && s[s.len() - 1] == 10u8 && s[s.len() - 2] == 10u8
}

proof fn lemma_newlines_no_triple(k: int)
    requires
        k <= 2,
    ensures
        !has_triple_newline(newlines(k)),
        k <= 1 ==> !ends_blank(newlines(k)),
{
    if has_triple_newline(newlines(k)) {
        let p = choose|p: int| triple_newline_at(newlines(k), p);
        assert(newlines(k).len() <= 2);
    }
}

proof fn lemma_collapse_from_shape(b: Seq<u8>, i: int, run: int)
    requires
        0 <= run,
    ensures
        !has_triple_newline(collapse_from(b, i, run)),
        !ends_blank(collapse_from(b, i, run)),
    decreases b.len() - i,
{
    if i < 0 || i >= b.len() {
        lemma_newlines_no_triple(if run < 1 { run } else { 1 });
    } else if b[i] == 10u8 {
        lemma_skip_blank(b, i + 1);
        lemma_collapse_from_shape(b, after_newline(b, i), run + 1);
    } else {
        lemma_collapse_from_shape(b, i + 1, 0);
        let m = if run < 2 {
            run
        } else {
            2
        };
        let rest = collapse_from(b, i + 1, 0);
        let out = collapse_from(b, i, run);
        assert(out == newlines(m) + seq![b[i]] + rest);
        assert(out[m] == b[i]);
        assert forall|q: int| m < q < out.len() implies out[q] == rest[q - m - 1] by {}
        assert forall|q: int| 0 <= q < m implies out[q] == 10u8 by {}
        if has_triple_newline(out) {
            let p = choose|p: int| triple_newline_at(out, p);
            if p > m {
                assert(triple_newline_at(rest, p - m - 1));
            }
        }
        if ends_blank(out) {
            if rest.len() >= 2 {
                assert(out[out.len() - 1] == rest[rest.len() - 1]);
                assert(out[out.len() - 2] == rest[rest.len() - 2]);
            }
        }
    }
}

/// After blank-line collapsing a text holds no three consecutive newlines;
/// a text that had them ends with at most one newline afterwards; a text
/// without them is left alone; and collapsing twice is collapsing once.
pub proof fn lemma_collapse_law(b: Seq<u8>)
    ensures
        !has_triple_newline(collapse(b)),
        has_triple_newline(b) ==> !ends_blank(collapse(b)),
        !has_triple_newline(b) ==> collapse(b) == b,
        collapse(collapse(b)) == collapse(b),
{
    if has_triple_newline(b) {
        lemma_collapse_from_shape(b, 0, 0);
    }
}

} // verus!
