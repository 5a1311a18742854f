//! Scores for the report: the sentences densest in matches, the rules that
//! fired most or never, and the figures of the summary. Printing them is
//! left to the caller.

use vstd::prelude::*;
use vstd::string::*;
use vstd::utf8::*;
use crate::rules::custom::{listed, texts};
use crate::rules::{views, Category, Match, MatchView};
use crate::text::{
    char_offsets, char_slice, chars_of, decimal, is_white_space, join_with, push_decimal, push_str, str_eq,
    trim_str, trimmed, white_space,
};

verus! {

// ── Ordering by density ─────────────────────────────────────────────────

/// A density `hits / words`, held as the pair; `words` is never zero.
pub open spec fn below(a: (int, int), b: (int, int)) -> bool {
    a.0 * b.1 < b.0 * a.1
}

/// The first position at or after `q` in `t` whose key is below that of `i`
/// (the length of `t` when there is none).
pub open spec fn first_below(keys: Seq<(int, int)>, t: Seq<int>, i: int, q: int) -> int
    decreases t.len() - q,
{
    if q < 0 || q >= t.len() {
        t.len() as int
    } else if below(keys[t[q]], keys[i]) {
        q
    } else {
        first_below(keys, t, i, q + 1)
    }
}

/// `t` with `i` inserted before the first entry of lower density.
pub open spec fn insert_order(keys: Seq<(int, int)>, t: Seq<int>, i: int) -> Seq<int> {
    let q = first_below(keys, t, i, 0);
    t.take(q).push(i) + t.skip(q)
}

/// The indices `0..n` ordered by descending density, equal densities in
/// their original order (a stable sort).
pub open spec fn density_order(keys: Seq<(int, int)>, n: int) -> Seq<int>
    decreases n,
{
    if n <= 0 {
        seq![]
    } else {
        insert_order(keys, density_order(keys, n - 1), n - 1)
    }
}

/// The keys as integers.
pub open spec fn key_view(keys: Seq<(usize, usize)>) -> Seq<(int, int)> {
    Seq::new(keys.len(), |k: int| (keys[k].0 as int, keys[k].1 as int))
}

proof fn lemma_first_below(keys: Seq<(int, int)>, t: Seq<int>, i: int, q: int)
    requires
        0 <= q <= t.len(),
    ensures
        q <= first_below(keys, t, i, q) <= t.len(),
    decreases t.len() - q,
{
    if q < t.len() && !below(keys[t[q]], keys[i]) {
        lemma_first_below(keys, t, i, q + 1);
    }
}

/// The order holds each of `0..n` once.
pub proof fn lemma_density_order(keys: Seq<(int, int)>, n: int)
    requires
        0 <= n,
    ensures
        density_order(keys, n).len() == n,
        forall|a: int| 0 <= a < n ==> 0 <= #[trigger] density_order(keys, n)[a] < n,
        forall|j: int| 0 <= j < n ==> density_order(keys, n).contains(j),
        forall|a: int, b: int|
            0 <= a < b < n ==> density_order(keys, n)[a] != density_order(keys, n)[b],
    decreases n,
{
    if n > 0 {
        lemma_density_order(keys, n - 1);
        let t = density_order(keys, n - 1);
        lemma_first_below(keys, t, n - 1, 0);
        let q = first_below(keys, t, n - 1, 0);
        let r = density_order(keys, n);
        assert(r == t.take(q).push(n - 1) + t.skip(q));
        assert forall|a: int| 0 <= a < n implies 0 <= #[trigger] r[a] < n by {
            if a < q {
                assert(r[a] == t[a]);
            } else if a > q {
                assert(r[a] == t[a - 1]);
            }
        }
        assert forall|j: int| 0 <= j < n implies r.contains(j) by {
            if j == n - 1 {
                assert(r[q] == j);
            } else {
                assert(t.contains(j));
                let a = choose|a: int| 0 <= a < t.len() && t[a] == j;
                if a < q {
                    assert(r[a] == j);
                } else {
                    assert(r[a + 1] == j);
                }
            }
        }
        assert forall|a: int, b: int| 0 <= a < b < n implies r[a] != r[b] by {
            if a < q && b < q {
                assert(r[a] == t[a] && r[b] == t[b]);
            } else if a < q && b == q {
                assert(r[a] == t[a]);
            } else if a < q {
                assert(r[a] == t[a] && r[b] == t[b - 1]);
            } else if a == q {
                assert(r[b] == t[b - 1]);
            } else {
                assert(r[a] == t[a - 1] && r[b] == t[b - 1]);
            }
        }
    }
}

proof fn lemma_below_trans(x: (int, int), y: (int, int), z: (int, int))
    requires
        x.1 > 0,
        y.1 > 0,
        z.1 > 0,
    ensures
        !below(x, y) && !below(y, z) ==> !below(x, z),
        !below(y, x) && below(y, z) ==> below(x, z),
{
    assert(x.0 * y.1 >= y.0 * x.1 && y.0 * z.1 >= z.0 * y.1 ==> x.0 * z.1 >= z.0 * x.1)
        by (nonlinear_arith)
        requires
            x.1 > 0,
            y.1 > 0,
            z.1 > 0,
    ;
    assert(y.0 * x.1 >= x.0 * y.1 && y.0 * z.1 < z.0 * y.1 ==> x.0 * z.1 < z.0 * x.1)
        by (nonlinear_arith)
        requires
            x.1 > 0,
            y.1 > 0,
            z.1 > 0,
    ;
}

/// The order puts the densities in descending order, and two entries of
/// equal density in the order they came in.
pub proof fn lemma_density_order_sorted(keys: Seq<(int, int)>, n: int)
    requires
        0 <= n <= keys.len(),
        forall|k: int| 0 <= k < keys.len() ==> #[trigger] keys[k].1 > 0,
    ensures
        forall|a: int, b: int|
            0 <= a < b < n ==> !below(
                keys[density_order(keys, n)[a]],
                keys[density_order(keys, n)[b]],
            ),
        forall|a: int, b: int|
            0 <= a < b < n && !below(
                keys[density_order(keys, n)[b]],
                keys[density_order(keys, n)[a]],
            ) ==> density_order(keys, n)[a] < density_order(keys, n)[b],
    decreases n,
{
    if n > 0 {
        lemma_density_order_sorted(keys, n - 1);
        lemma_density_order(keys, n - 1);
        lemma_density_order(keys, n);
        let t = density_order(keys, n - 1);
        let i = n - 1;
        lemma_first_below(keys, t, i, 0);
        let q = first_below(keys, t, i, 0);
        lemma_first_below_prefix(keys, t, i, 0);
        let r = density_order(keys, n);
        assert(r == t.take(q).push(i) + t.skip(q));
        assert forall|a: int| q <= a < t.len() implies below(keys[#[trigger] t[a]], keys[i]) by {
            assert(below(keys[t[q]], keys[i]));
            if a > q {
                assert(!below(keys[t[q]], keys[t[a]]));
                lemma_below_trans(keys[t[a]], keys[t[q]], keys[i]);
            }
        }
        assert forall|a: int, b: int| 0 <= a < b < n implies !below(keys[r[a]], keys[r[b]]) && (!below(
            keys[r[b]],
            keys[r[a]],
        ) ==> r[a] < r[b]) by {
            if b < q {
                assert(r[a] == t[a] && r[b] == t[b]);
            } else if b == q {
                assert(r[b] == i);
                assert(r[a] == t[a]);
            } else if a < q {
                assert(r[a] == t[a] && r[b] == t[b - 1]);
            } else if a == q {
                assert(r[a] == i && r[b] == t[b - 1]);
            } else {
                assert(r[a] == t[a - 1] && r[b] == t[b - 1]);
            }
        }
    }
}

proof fn lemma_first_below_prefix(keys: Seq<(int, int)>, t: Seq<int>, i: int, q: int)
    requires
        0 <= q <= t.len(),
    ensures
        forall|a: int| q <= a < first_below(keys, t, i, q) ==> !below(keys[#[trigger] t[a]], keys[i]),
        first_below(keys, t, i, q) < t.len() ==> below(keys[t[first_below(keys, t, i, q)]], keys[i]),
    decreases t.len() - q,
{
    if q < t.len() && !below(keys[t[q]], keys[i]) {
        lemma_first_below_prefix(keys, t, i, q + 1);
    }
}

/// Whether the density `a` is below the density `b`.
fn is_below(a: (usize, usize), b: (usize, usize)) -> (r: bool)
    ensures
        r == below((a.0 as int, a.1 as int), (b.0 as int, b.1 as int)),
{
    let (p, q, u, v) = (a.0 as u128, b.1 as u128, b.0 as u128, a.1 as u128);
    assert(p * q <= u64::MAX * u64::MAX && u * v <= u64::MAX * u64::MAX) by (nonlinear_arith)
        requires
            p <= u64::MAX,
            q <= u64::MAX,
            u <= u64::MAX,
            v <= u64::MAX,
    ;
    p * q < u * v
}

/// The indices of the keys `(hits, words)` in descending order of
/// `hits / words`, equal densities in their original order.
pub fn order_by_density(keys: &Vec<(usize, usize)>) -> (r: Vec<usize>)
    ensures
        r@.len() == keys@.len(),
        forall|a: int| 0 <= a < r@.len() ==> r@[a] as int == density_order(key_view(keys@), keys@.len() as int)[a],
        forall|a: int| 0 <= a < r@.len() ==> #[trigger] r@[a] < keys@.len(),
{
    let ghost kv = key_view(keys@);
    let mut out: Vec<usize> = Vec::new();
    let mut i: usize = 0;
    while i < keys.len()
        invariant
            i <= keys@.len(),
            kv == key_view(keys@),
            out@.len() == i,
            forall|a: int| 0 <= a < i ==> out@[a] as int == #[trigger] density_order(kv, i as int)[a],
        decreases keys@.len() - i,
    {
        let ghost t = density_order(kv, i as int);
        proof {
            lemma_density_order(kv, i as int);
        }
        let (h, w) = keys[i];
        let mut q: usize = 0;
        while q < out.len() && !is_below(keys[out[q]], (h, w))
            invariant
                q <= out@.len(),
                out@.len() == i,
                i < keys@.len(),
                kv == key_view(keys@),
                (h, w) == keys@[i as int],
                forall|a: int| 0 <= a < i ==> out@[a] as int == #[trigger] t[a],
                forall|a: int| 0 <= a < i ==> 0 <= #[trigger] t[a] < i,
                t.len() == i,
                first_below(kv, t, i as int, 0) == first_below(kv, t, i as int, q as int),
            decreases out@.len() - q,
        {
            assert(out@[q as int] as int == t[q as int]);
            q = q + 1;
        }
        proof {
            if q < out@.len() {
                assert(out@[q as int] as int == t[q as int]);
            }
        }
        out.insert(q, i);
        proof {
            let r = density_order(kv, i + 1);
            assert(r == t.take(q as int).push(i as int) + t.skip(q as int));
            assert forall|a: int| 0 <= a < i + 1 implies out@[a] as int == #[trigger] r[a] by {
                if a < q {
                    assert(out@[a] as int == t[a]);
                } else if a > q {
                    assert(out@[a] as int == t[a - 1]);
                }
            }
        }
        i = i + 1;
    }
    proof {
        lemma_density_order(kv, keys@.len() as int);
        assert forall|a: int| 0 <= a < out@.len() implies #[trigger] out@[a] < keys@.len() by {
            assert(out@[a] as int == density_order(kv, keys@.len() as int)[a]);
        }
    }
    out
}

// ── Sentences ───────────────────────────────────────────────────────────

/// The number of newlines among the characters.
pub open spec fn newline_count(cs: Seq<char>) -> int
    decreases cs.len(),
{
    if cs.len() == 0 {
        0
    } else {
        newline_count(cs.drop_last()) + if cs.last() == '\n' {
            1int
        } else {
            0int
        }
    }
}

/// The characters are all white space (the text trims to nothing).
pub open spec fn blank(cs: Seq<char>) -> bool {
    forall|k: int| 0 <= k < cs.len() ==> is_white_space(#[trigger] cs[k])
}

/// The character at `k` ends a sentence: a `.`, `!` or `?` followed by
/// white space or by the end of the text.
pub open spec fn ends_sentence(cs: Seq<char>, k: int) -> bool {
    &&& cs[k] == '.' || cs[k] == '!' || cs[k] == '?'
    &&& k + 1 >= cs.len() || is_white_space(cs[k + 1])
}

/// The sentences of `cs` from character `start` on, the scan standing at
/// `k`: each as its trimmed text and the index of its first character
/// (white space before it included). A sentence ends at a character that
/// ends one, once it holds something other than white space; what is left
/// at the end is a sentence too unless it is blank.
pub open spec fn sentences_from(cs: Seq<char>, start: int, k: int) -> Seq<(Seq<char>, int)>
    decreases cs.len() - k,
{
    if k < start || k >= cs.len() {
        let rest = cs.subrange(start, cs.len() as int);
        if blank(rest) {
            seq![]
        } else {
            seq![(trimmed(rest), start)]
        }
    } else if ends_sentence(cs, k) && !blank(cs.subrange(start, k + 1)) {
        seq![(trimmed(cs.subrange(start, k + 1)), start)] + sentences_from(cs, k + 1, k + 1)
    } else {
        sentences_from(cs, start, k + 1)
    }
}

/// The index of the first character at or after `i` that is not white
/// space (the length of the text when there is none).
pub open spec fn skip_white(cs: Seq<char>, i: int) -> int
    decreases cs.len() - i,
{
    if 0 <= i < cs.len() && is_white_space(cs[i]) {
        skip_white(cs, i + 1)
    } else {
        i
    }
}

/// A sentence as the text, the byte offset where it starts (white space
/// before it included) and the 1-indexed line of its first character that
/// is not white space.
pub open spec fn sentence_record(cs: Seq<char>, s: (Seq<char>, int)) -> (Seq<char>, int, int) {
    (s.0, encode_utf8(cs.take(s.1)).len() as int, 1 + newline_count(cs.take(skip_white(cs, s.1))))
}

/// The sentences of a text, each with its byte offset and line.
pub open spec fn sentences(cs: Seq<char>) -> Seq<(Seq<char>, int, int)> {
    let ss = sentences_from(cs, 0, 0);
    Seq::new(ss.len(), |k: int| sentence_record(cs, ss[k]))
}

proof fn lemma_newline_count(cs: Seq<char>, k: int)
    requires
        0 <= k < cs.len(),
    ensures
        newline_count(cs.take(k + 1)) == newline_count(cs.take(k)) + if cs[k] == '\n' {
            1int
        } else {
            0int
        },
        0 <= newline_count(cs.take(k)) <= k,
    decreases k,
{
    assert(cs.take(k + 1).drop_last() == cs.take(k));
    if k > 0 {
        lemma_newline_count(cs, k - 1);
    } else {
        assert(cs.take(0).len() == 0);
    }
}

/// Splits the text into sentences: `(text, start byte, start line)`.
fn split_sentences(content: &str) -> (r: Vec<(String, usize, usize)>)
    requires
        content@.len() < usize::MAX,
    ensures
        r@.len() == sentences(content@).len(),
        forall|k: int|
            0 <= k < r@.len() ==> {
                let (t, b, l) = #[trigger] r@[k];
                (t@, b as int, l as int) == sentences(content@)[k]
            },
        forall|k: int|
            0 <= k < r@.len() ==> (#[trigger] r@[k]).1 + encode_utf8(r@[k].0@).len() <= encode_utf8(
                content@,
            ).len(),
{
    let ghost cs = content@;
    let chars = chars_of(content);
    let offs = char_offsets(content);
    let n = chars.len();
    let mut out: Vec<(String, usize, usize)> = Vec::new();
    let ghost mut done: Seq<(Seq<char>, int)> = seq![];
    let mut start: usize = 0;
    let mut start_line: usize = 1;
    let mut line: usize = 1;
    let mut nonblank = false;
    let mut k: usize = 0;
    proof {
        assert(cs.take(0).len() == 0);
    }
    while k < n
        invariant
            chars@ == cs,
            cs == content@,
            n == cs.len(),
            n < usize::MAX,
            offs@.len() == cs.len() + 1,
            forall|j: int| 0 <= j <= cs.len() ==> offs@[j] as int == encode_utf8(cs.take(j)).len(),
            start <= k <= n,
            line as int == 1 + newline_count(cs.take(k as int)),
            nonblank == !blank(cs.subrange(start as int, k as int)),
            !nonblank ==> skip_white(cs, start as int) == skip_white(cs, k as int),
            nonblank ==> start <= skip_white(cs, start as int) < k && start_line as int == 1
                + newline_count(cs.take(skip_white(cs, start as int))),
            done + sentences_from(cs, start as int, k as int) == sentences_from(cs, 0, 0),
            out@.len() == done.len(),
            forall|j: int|
                0 <= j < out@.len() ==> {
                    let (t, b, l) = #[trigger] out@[j];
                    (t@, b as int, l as int) == sentence_record(cs, done[j])
                },
            forall|j: int|
                0 <= j < out@.len() ==> (#[trigger] out@[j]).1 + encode_utf8(out@[j].0@).len()
                    <= encode_utf8(cs).len(),
        decreases n - k,
    {
        let c = chars[k];
        proof {
            lemma_newline_count(cs, k as int);
        }
        if c == '\n' {
            line = line + 1;
        }
        if !white_space(c) {
            if !nonblank {
                start_line = line;
            }
            nonblank = true;
        }
        proof {
            let a = cs.subrange(start as int, k as int);
            let b = cs.subrange(start as int, k + 1);
            assert(b == a.push(c));
            if !blank(b) && blank(a) {
                assert(!is_white_space(c));
            }
            if !is_white_space(c) {
                assert(b[b.len() - 1] == c);
            }
        }
        let ends = (c == '.' || c == '!' || c == '?') && (k + 1 >= n || white_space(chars[k + 1]));
        if ends && nonblank {
            let piece = char_slice(content, &offs, start, k + 1);
            let text = trim_str(piece).to_owned();
            proof {
                crate::text::lemma_char_range(cs, k + 1, n as int);

                assert(sentences_from(cs, start as int, k as int) == seq![
                    (trimmed(cs.subrange(start as int, k + 1)), start as int),
                ] + sentences_from(cs, k + 1, k + 1));
                done = done.push((trimmed(cs.subrange(start as int, k + 1)), start as int));
            }
            out.push((text, offs[start], start_line));
            start = k + 1;
            start_line = line;
            nonblank = false;
            proof {
                assert(cs.subrange(start as int, start as int).len() == 0);
            }
        }
        k = k + 1;
    }
    if nonblank {
        let piece = char_slice(content, &offs, start, n);
        let text = trim_str(piece).to_owned();
        proof {
            assert(cs.take(n as int) == cs);
            done = done.push((trimmed(cs.subrange(start as int, n as int)), start as int));
        }
        out.push((text, offs[start], start_line));
    }
    proof {
        assert(done == sentences_from(cs, 0, 0));
    }
    out
}

// ── Sentence scores ─────────────────────────────────────────────────────

/// A sentence with the matches inside it.
pub struct SentenceScore {
    /// The sentence text; when it is longer than 100 bytes, the characters
    /// that fit in its first 97 bytes and an ellipsis.
    pub text: String,
    /// 1-indexed line where the sentence starts (its first character that
    /// is not white space).
    pub line: usize,
    /// Number of matches inside the sentence.
    pub hits: usize,
    /// Number of words in the sentence, at least 1; the density is
    /// `hits / word_count`.
    pub word_count: usize,
    /// The matched words and phrases inside the sentence.
    pub matched_words: Vec<String>,
}

/// The mathematical value of a [`SentenceScore`].
pub struct ScoreView {
    pub text: Seq<char>,
    pub line: int,
    pub hits: int,
    pub word_count: int,
    pub matched_words: Seq<Seq<char>>,
}

impl View for SentenceScore {
    type V = ScoreView;

    open spec fn view(&self) -> ScoreView {
        ScoreView {
            text: self.text@,
            line: self.line as int,
            hits: self.hits as int,
            word_count: self.word_count as int,
            matched_words: texts(self.matched_words@),
        }
    }
}

/// The views of a sequence of scores.
pub open spec fn score_views(v: Seq<SentenceScore>) -> Seq<ScoreView> {
    Seq::new(v.len(), |k: int| v[k]@)
}

/// The number of words: runs of characters that are not white space.
pub open spec fn word_total(cs: Seq<char>) -> int
    decreases cs.len(),
{
    if cs.len() == 0 {
        0
    } else {
        word_total(cs.drop_last()) + if !is_white_space(cs.last()) && (cs.len() == 1
            || is_white_space(cs[cs.len() - 2])) {
            1int
        } else {
            0int
        }
    }
}

/// The matches that start in the byte range `lo..hi`, in order.
pub open spec fn starting_in(ms: Seq<MatchView>, lo: int, hi: int) -> Seq<MatchView>
    decreases ms.len(),
{
    if ms.len() == 0 {
        seq![]
    } else {
        starting_in(ms.drop_last(), lo, hi) + if lo <= ms.last().start < hi {
            seq![ms.last()]
        } else {
            seq![]
        }
    }
}

/// The matched texts, trimmed, that are not empty and shorter than 60 bytes.
pub open spec fn shown_words(ms: Seq<MatchView>) -> Seq<Seq<char>>
    decreases ms.len(),
{
    if ms.len() == 0 {
        seq![]
    } else {
        let w = trimmed(ms.last().original);
        shown_words(ms.drop_last()) + if w.len() > 0 && encode_utf8(w).len() < 60 {
            seq![w]
        } else {
            seq![]
        }
    }
}

/// The number of leading characters of `t`, from `j` on, that fit in its
/// first 97 bytes: the count grows while the next character still ends by
/// byte 97.
pub open spec fn cut_from(t: Seq<char>, j: int) -> int
    decreases t.len() - j,
{
    if 0 <= j < t.len() && encode_utf8(t.take(j + 1)).len() <= 97 {
        cut_from(t, j + 1)
    } else {
        j
    }
}

/// The text as shown: longer than 100 bytes, the characters that fit in its
/// first 97 bytes and `…`.
pub open spec fn shown_text(t: Seq<char>) -> Seq<char> {
    if encode_utf8(t).len() > 100 {
        t.take(cut_from(t, 0)) + seq!['…']
    } else {
        t
    }
}

/// The matches counted in a sentence: those starting from its first byte
/// up to 4 bytes past the length of its trimmed text.
pub open spec fn sentence_hits(s: (Seq<char>, int, int), ms: Seq<MatchView>) -> Seq<MatchView> {
    starting_in(ms, s.1, s.1 + encode_utf8(s.0).len() + 4)
}

/// The score of a sentence.
pub open spec fn score_of(s: (Seq<char>, int, int), ms: Seq<MatchView>) -> ScoreView {
    let sel = sentence_hits(s, ms);
    ScoreView {
        text: shown_text(s.0),
        line: s.2,
        hits: sel.len() as int,
        word_count: if word_total(s.0) > 1 {
            word_total(s.0)
        } else {
            1
        },
        matched_words: shown_words(sel),
    }
}

/// The scores of the sentences with at least one match, in text order.
pub open spec fn raw_scores(ss: Seq<(Seq<char>, int, int)>, ms: Seq<MatchView>) -> Seq<ScoreView>
    decreases ss.len(),
{
    if ss.len() == 0 {
        seq![]
    } else {
        raw_scores(ss.drop_last(), ms) + if sentence_hits(ss.last(), ms).len() > 0 {
            seq![score_of(ss.last(), ms)]
        } else {
            seq![]
        }
    }
}

/// The density keys `(hits, words)` of scores.
pub open spec fn score_keys(v: Seq<ScoreView>) -> Seq<(int, int)> {
    Seq::new(v.len(), |k: int| (v[k].hits, v[k].word_count))
}

/// The scores of the sentences with matches, densest first, equal
/// densities in text order.
pub open spec fn spec_sentence_density(cs: Seq<char>, ms: Seq<MatchView>) -> Seq<ScoreView> {
    let raw = raw_scores(sentences(cs), ms);
    let ord = density_order(score_keys(raw), raw.len() as int);
    Seq::new(raw.len(), |a: int| raw[ord[a]])
}

impl SentenceScore {
    /// A copy of the score.
    pub fn duplicate(&self) -> (r: SentenceScore)
        ensures
            r@ == self@,
    {
        let mut words: Vec<String> = Vec::new();
        let mut k: usize = 0;
        while k < self.matched_words.len()
            invariant
                k <= self.matched_words@.len(),
                words@.len() == k,
                texts(words@) == texts(self.matched_words@).take(k as int),
            decreases self.matched_words@.len() - k,
        {
            let ghost before = words@;
            let w = self.matched_words[k].clone();
            words.push(w);
            assert forall|q: int| 0 <= q < k + 1 implies #[trigger] texts(words@)[q] == texts(
                self.matched_words@,
            )[q] by {
                if q < k {
                    assert(texts(before)[q] == texts(self.matched_words@).take(k as int)[q]);
                }
            }
            assert(texts(words@) =~= texts(self.matched_words@).take(k + 1));
            k = k + 1;
        }
        assert(texts(self.matched_words@).take(k as int) == texts(self.matched_words@));
        SentenceScore {
            text: self.text.clone(),
            line: self.line,
            hits: self.hits,
            word_count: self.word_count,
            matched_words: words,
        }
    }
}

/// The number of words in a text.
fn count_words(t: &str) -> (r: usize)
    ensures
        r as int == word_total(t@),
{
    let cs = chars_of(t);
    let mut n: usize = 0;
    let mut k: usize = 0;
    proof {
        assert(t@.take(0).len() == 0);
    }
    while k < cs.len()
        invariant
            cs@ == t@,
            k <= cs@.len(),
            n as int == word_total(t@.take(k as int)),
            n <= k,
        decreases cs@.len() - k,
    {
        let ghost p = t@.take(k + 1);
        assert(p.drop_last() == t@.take(k as int));
        assert(p.last() == cs@[k as int]);
        if k > 0 {
            assert(p[p.len() - 2] == cs@[k - 1]);
        }
        if !white_space(cs[k]) && (k == 0 || white_space(cs[k - 1])) {
            n = n + 1;
        }
        k = k + 1;
    }
    assert(t@.take(k as int) == t@);
    n
}

/// The text shown for a sentence.
fn display_text(t: &str) -> (r: String)
    ensures
        r@ == shown_text(t@),
{
    if t.as_bytes().len() <= 100 {
        return t.to_owned();
    }
    let offs = char_offsets(t);
    let n = offs.len() - 1;
    let mut j: usize = 0;
    while j < n && offs[j + 1] <= 97
        invariant
            offs@.len() == t@.len() + 1,
            n == t@.len(),
            forall|q: int| 0 <= q <= t@.len() ==> offs@[q] as int == encode_utf8(t@.take(q)).len(),
            j <= n,
            cut_from(t@, 0) == cut_from(t@, j as int),
        decreases n - j,
    {
        j = j + 1;
    }
    let head = char_slice(t, &offs, 0, j);
    let mut out = head.to_owned();
    push_str(&mut out, "…");
    proof {
        assert(t@.subrange(0, j as int) == t@.take(j as int));
        reveal_strlit("…");
    }
    out
}

/// A text has no more characters than bytes.
proof fn lemma_chars_within_bytes(cs: Seq<char>)
    ensures
        cs.len() <= encode_utf8(cs).len(),
    decreases cs.len(),
{
    if cs.len() > 0 {
        lemma_chars_within_bytes(cs.drop_first());
        assert(encode_scalar(cs[0] as u32).len() >= 1);
    }
}

/// The number of matches in a sentence, and its score when it has matches.
fn score_sentence(text: &String, start: usize, line: usize, matches: &[Match]) -> (r: (
    usize,
    Option<SentenceScore>,
))
    requires
        start + encode_utf8(text@).len() + 4 <= usize::MAX,
    ensures
        r.0 == sentence_hits((text@, start as int, line as int), views(matches@)).len(),
        r.0 > 0 <==> r.1 is Some,
        r.1 matches Some(x) ==> x@ == score_of((text@, start as int, line as int), views(matches@)),
{
    let ghost ms = views(matches@);
    let end = start + text.as_str().as_bytes().len() + 4;
    let mut hits: usize = 0;
    let mut words: Vec<String> = Vec::new();
    let mut k: usize = 0;
    proof {
        assert(ms.take(0) == Seq::<MatchView>::empty());
    }
    while k < matches.len()
        invariant
            ms == views(matches@),
            end == start + encode_utf8(text@).len() + 4,
            k <= matches@.len(),
            hits <= k,
            hits == starting_in(ms.take(k as int), start as int, end as int).len(),
            texts(words@) == shown_words(starting_in(ms.take(k as int), start as int, end as int)),
        decreases matches@.len() - k,
    {
        let ghost before = starting_in(ms.take(k as int), start as int, end as int);
        let ghost old_words = words@;
        let m = &matches[k];
        proof {
            assert(ms.take(k + 1).drop_last() == ms.take(k as int));
            assert(ms.take(k + 1).last() == m@);
        }
        if m.byte_range.start >= start && m.byte_range.start < end {
            hits = hits + 1;
            let w = trim_str(m.original.as_str());
            proof {
                assert(starting_in(ms.take(k + 1), start as int, end as int) == before.push(m@));
                assert(before.push(m@).drop_last() == before);
            }
            if !w.is_empty() && w.as_bytes().len() < 60 {
                words.push(w.to_owned());
                assert(texts(words@) =~= texts(old_words).push(w@));
            }
        } else {
            assert(starting_in(ms.take(k + 1), start as int, end as int) =~= before);
        }
        k = k + 1;
    }
    assert(ms.take(k as int) == ms);
    let n = count_words(text.as_str());
    let word_count = if n > 1 {
        n
    } else {
        1
    };
    if hits == 0 {
        return (0, None);
    }
    let shown = display_text(text.as_str());
    (hits, Some(SentenceScore { text: shown, line, hits, word_count, matched_words: words }))
}

/// The scores of the sentences of `content` that hold matches, densest
/// first (`hits / word_count`), equal densities in text order.
pub fn compute_sentence_density(content: &str, matches: &[Match]) -> (r: Vec<SentenceScore>)
    requires
        encode_utf8(content@).len() + 4 <= usize::MAX,
    ensures
        score_views(r@) == spec_sentence_density(content@, views(matches@)),
{
    let ghost cs = content@;
    let ghost ms = views(matches@);
    let ghost ss = sentences(cs);
    proof {
        lemma_chars_within_bytes(cs);
    }
    let sents = split_sentences(content);
    let mut raw: Vec<SentenceScore> = Vec::new();
    let mut keys: Vec<(usize, usize)> = Vec::new();
    let mut k: usize = 0;
    proof {
        assert(ss.take(0) == Seq::<(Seq<char>, int, int)>::empty());
    }
    while k < sents.len()
        invariant
            cs == content@,
            ms == views(matches@),
            ss == sentences(cs),
            encode_utf8(cs).len() + 4 <= usize::MAX,
            sents@.len() == ss.len(),
            forall|j: int|
                0 <= j < sents@.len() ==> {
                    let (t, b, l) = #[trigger] sents@[j];
                    (t@, b as int, l as int) == ss[j]
                },
            forall|j: int|
                0 <= j < sents@.len() ==> (#[trigger] sents@[j]).1 + encode_utf8(sents@[j].0@).len()
                    <= encode_utf8(cs).len(),
            k <= sents@.len(),
            score_views(raw@) == raw_scores(ss.take(k as int), ms),
            keys@.len() == raw@.len(),
            forall|j: int|
                0 <= j < keys@.len() ==> (#[trigger] keys@[j]).0 == raw@[j].hits && keys@[j].1
                    == raw@[j].word_count,
        decreases sents@.len() - k,
    {
        let ghost old_raw = raw@;
        proof {
            assert(ss.take(k + 1).drop_last() == ss.take(k as int));
            assert(ss.take(k + 1).last() == ss[k as int]);
        }
        let (hits, sc) = score_sentence(&sents[k].0, sents[k].1, sents[k].2, matches);
        if hits > 0 {
            match sc {
                None => {},
                Some(x) => {
                    let ghost xv = x@;
                    keys.push((x.hits, x.word_count));
                    raw.push(x);
                    assert(raw@ == old_raw.push(raw@.last()));
                    assert(score_views(raw@) =~= score_views(old_raw).push(xv));
                },
            }
        } else {
            assert(score_views(raw@) =~= raw_scores(ss.take(k + 1), ms));
        }
        k = k + 1;
    }
    assert(ss.take(k as int) == ss);
    let ghost rs = raw_scores(ss, ms);
    let order = order_by_density(&keys);
    proof {
        assert(key_view(keys@) =~= score_keys(rs));
    }
    let mut out: Vec<SentenceScore> = Vec::new();
    let mut a: usize = 0;
    while a < order.len()
        invariant
            a <= order@.len(),
            out@.len() == a,
            order@.len() == raw@.len(),
            rs == score_views(raw@),
            forall|q: int| 0 <= q < order@.len() ==> #[trigger] order@[q] < raw@.len(),
            forall|q: int|
                0 <= q < order@.len() ==> order@[q] as int == density_order(
                    score_keys(rs),
                    rs.len() as int,
                )[q],
            score_views(out@) == Seq::new(
                a as nat,
                |q: int| rs[density_order(score_keys(rs), rs.len() as int)[q]],
            ),
        decreases order@.len() - a,
    {
        let ghost before = out@;
        let x = raw[order[a]].duplicate();
        let ghost xv = x@;
        out.push(x);
        assert(out@ == before.push(out@.last()));
        assert(xv == rs[density_order(score_keys(rs), rs.len() as int)[a as int]]);
        assert forall|q: int| 0 <= q < a implies #[trigger] score_views(out@)[q] == score_views(
            before,
        )[q] by {
            assert(out@[q] == before[q]);
        }
        assert(score_views(out@) =~= Seq::new(
            (a + 1) as nat,
            |q: int| rs[density_order(score_keys(rs), rs.len() as int)[q]],
        ));
        a = a + 1;
    }
    out
}

proof fn lemma_raw_scores_words(ss: Seq<(Seq<char>, int, int)>, ms: Seq<MatchView>)
    ensures
        forall|k: int|
            0 <= k < raw_scores(ss, ms).len() ==> #[trigger] raw_scores(ss, ms)[k].word_count >= 1,
    decreases ss.len(),
{
    if ss.len() > 0 {
        lemma_raw_scores_words(ss.drop_last(), ms);
        let a = raw_scores(ss.drop_last(), ms);
        assert forall|k: int| 0 <= k < raw_scores(ss, ms).len() implies #[trigger] raw_scores(
            ss,
            ms,
        )[k].word_count >= 1 by {
            if k < a.len() {
                assert(raw_scores(ss, ms)[k] == a[k]);
            }
        }
    }
}

/// The scores come densest first: a score never has a lower density
/// (`hits / word_count`) than one after it.
pub proof fn lemma_sentence_density_sorted(cs: Seq<char>, ms: Seq<MatchView>)
    ensures
        forall|a: int, b: int|
            0 <= a < b < spec_sentence_density(cs, ms).len() ==> {
                let x = #[trigger] spec_sentence_density(cs, ms)[a];
                let y = #[trigger] spec_sentence_density(cs, ms)[b];
                x.hits * y.word_count >= y.hits * x.word_count
            },
{
    let raw = raw_scores(sentences(cs), ms);
    let keys = score_keys(raw);
    lemma_raw_scores_words(sentences(cs), ms);
    lemma_density_order(keys, raw.len() as int);
    lemma_density_order_sorted(keys, raw.len() as int);
    let ord = density_order(keys, raw.len() as int);
    assert forall|a: int, b: int| 0 <= a < b < spec_sentence_density(cs, ms).len() implies {
        let x = #[trigger] spec_sentence_density(cs, ms)[a];
        let y = #[trigger] spec_sentence_density(cs, ms)[b];
        x.hits * y.word_count >= y.hits * x.word_count
    } by {
        assert(spec_sentence_density(cs, ms)[a] == raw[ord[a]]);
        assert(spec_sentence_density(cs, ms)[b] == raw[ord[b]]);
        assert(!below(keys[ord[a]], keys[ord[b]]));
    }
}

// ── Rule counts ─────────────────────────────────────────────────────────

/// The rule ids of the matches.
pub open spec fn match_ids(ms: Seq<Match>) -> Seq<Seq<char>> {
    Seq::new(ms.len(), |k: int| ms[k].rule_id@)
}

/// The rule ids of the matches of every file, file after file.
pub open spec fn all_ids(results: Seq<(String, Vec<Match>)>) -> Seq<Seq<char>>
    decreases results.len(),
{
    if results.len() == 0 {
        seq![]
    } else {
        all_ids(results.drop_last()) + match_ids(results.last().1@)
    }
}

/// How many times `x` occurs in `ids`.
pub open spec fn count_of(ids: Seq<Seq<char>>, x: Seq<char>) -> int
    decreases ids.len(),
{
    if ids.len() == 0 {
        0
    } else {
        count_of(ids.drop_last(), x) + if ids.last() == x {
            1int
        } else {
            0int
        }
    }
}

/// `b` is the first position of a rule that fired most.
pub open spec fn is_worst(ids: Seq<Seq<char>>, b: int) -> bool {
    &&& 0 <= b < ids.len()
    &&& forall|j: int| 0 <= j < ids.len() ==> count_of(ids, #[trigger] ids[j]) <= count_of(ids, ids[b])
    &&& forall|j: int| 0 <= j < b ==> count_of(ids, #[trigger] ids[j]) < count_of(ids, ids[b])
}

/// The rule ids of the matches of every file, file after file: the rules
/// that fired, each as often as it did.
pub fn fired_rule_ids(results: &[(String, Vec<Match>)]) -> (r: Vec<String>)
    ensures
        texts(r@) == all_ids(results@),
{
    let mut out: Vec<String> = Vec::new();
    let mut f: usize = 0;
    proof {
        assert(results@.take(0) == Seq::<(String, Vec<Match>)>::empty());
        assert(texts(out@) =~= all_ids(results@.take(0)));
    }
    while f < results.len()
        invariant
            f <= results@.len(),
            texts(out@) == all_ids(results@.take(f as int)),
        decreases results@.len() - f,
    {
        let ms = &results[f].1;
        let ghost base = out@;
        let mut k: usize = 0;
        while k < ms.len()
            invariant
                k <= ms@.len(),
                out@.len() == base.len() + k,
                texts(out@) == texts(base) + match_ids(ms@).take(k as int),
            decreases ms@.len() - k,
        {
            let ghost before = out@;
            out.push(ms[k].rule_id.clone());
            assert(out@ == before.push(out@.last()));
            assert forall|q: int| 0 <= q < out@.len() implies #[trigger] texts(out@)[q] == (texts(base)
                + match_ids(ms@).take(k + 1))[q] by {
                if q < before.len() {
                    assert(texts(out@)[q] == texts(before)[q]);
                }
            }
            assert(texts(out@) =~= texts(base) + match_ids(ms@).take(k + 1));
            k = k + 1;
        }
        proof {
            assert(match_ids(ms@).take(k as int) == match_ids(ms@));
            assert(results@.take(f + 1).drop_last() == results@.take(f as int));
            assert(results@.take(f + 1).last() == results@[f as int]);
        }
        f = f + 1;
    }
    assert(results@.take(f as int) == results@);
    out
}

/// How many times `x` occurs in `ids`.
fn occurrences(ids: &Vec<String>, x: &str) -> (r: usize)
    ensures
        r as int == count_of(texts(ids@), x@),
{
    let mut n: usize = 0;
    let mut k: usize = 0;
    proof {
        assert(texts(ids@).take(0) == Seq::<Seq<char>>::empty());
    }
    while k < ids.len()
        invariant
            k <= ids@.len(),
            n <= k,
            n as int == count_of(texts(ids@).take(k as int), x@),
        decreases ids@.len() - k,
    {
        proof {
            assert(texts(ids@).take(k + 1).drop_last() == texts(ids@).take(k as int));
            assert(texts(ids@).take(k + 1).last() == ids@[k as int]@);
        }
        if str_eq(ids[k].as_str(), x) {
            n = n + 1;
        }
        k = k + 1;
    }
    assert(texts(ids@).take(k as int) == texts(ids@));
    n
}

/// The rule that fired most over all files, with its number of matches;
/// of rules that fired equally often, the one that fired first. `None`
/// when there are no matches.
pub fn worst_rule(results: &[(String, Vec<Match>)]) -> (r: Option<(String, usize)>)
    ensures
        r is None <==> all_ids(results@).len() == 0,
        r matches Some((w, c)) ==> exists|b: int|
            is_worst(all_ids(results@), b) && #[trigger] all_ids(results@)[b] == w@ && c == count_of(
                all_ids(results@),
                all_ids(results@)[b],
            ),
{
    let ids = fired_rule_ids(results);
    let ghost t = all_ids(results@);
    if ids.len() == 0 {
        return None;
    }
    let mut best: usize = 0;
    let mut best_count = occurrences(&ids, ids[0].as_str());
    let mut j: usize = 1;
    while j < ids.len()
        invariant
            texts(ids@) == t,
            1 <= j <= ids@.len(),
            best < j,
            best_count as int == count_of(t, t[best as int]),
            forall|q: int| 0 <= q < j ==> count_of(t, #[trigger] t[q]) <= count_of(t, t[best as int]),
            forall|q: int| 0 <= q < best ==> count_of(t, #[trigger] t[q]) < count_of(t, t[best as int]),
        decreases ids@.len() - j,
    {
        let c = occurrences(&ids, ids[j].as_str());
        assert(t[j as int] == ids@[j as int]@);
        if c > best_count {
            best = j;
            best_count = c;
        }
        j = j + 1;
    }
    assert(t[best as int] == ids@[best as int]@);
    Some((ids[best].clone(), best_count))
}

/// The rules that never fired are active rules that did not fire, and
/// every active rule that did not fire is among them.
pub proof fn lemma_never_fired(all: Seq<Seq<char>>, fired: Seq<Seq<char>>)
    ensures
        forall|k: int|
            0 <= k < spec_never_fired(all, fired).len() ==> all.contains(
                #[trigger] spec_never_fired(all, fired)[k],
            ) && !fired.contains(spec_never_fired(all, fired)[k]),
        forall|j: int|
            0 <= j < all.len() && !fired.contains(#[trigger] all[j]) ==> spec_never_fired(
                all,
                fired,
            ).contains(all[j]),
    decreases all.len(),
{
    if all.len() > 0 {
        let init = all.drop_last();
        lemma_never_fired(init, fired);
        let r = spec_never_fired(all, fired);
        let q = spec_never_fired(init, fired);
        assert forall|k: int| 0 <= k < r.len() implies all.contains(#[trigger] r[k]) && !fired.contains(
            r[k],
        ) by {
            if k < q.len() {
                assert(r[k] == q[k]);
                let j = choose|j: int| 0 <= j < init.len() && init[j] == q[k];
                assert(all[j] == init[j]);
            } else {
                assert(r[k] == all.last());
                assert(all[all.len() - 1] == all.last());
            }
        }
        assert forall|j: int| 0 <= j < all.len() && !fired.contains(#[trigger] all[j]) implies r.contains(
            all[j],
        ) by {
            if j < init.len() {
                assert(init[j] == all[j]);
                let k = choose|k: int| 0 <= k < q.len() && q[k] == all[j];
                assert(r[k] == q[k]);
            } else {
                assert(r[r.len() - 1] == all[j]);
            }
        }
    }
}

/// The figures of a JSON report.
pub struct JsonSummary {
    pub total_files_scanned: usize,
    pub files_with_matches: usize,
    pub total_matches: usize,
    /// The rule that fired most (empty when none did).
    pub worst_rule: String,
}

/// The figures of a JSON report on the files that were reported, out of
/// `total_files_scanned` files.
pub fn json_summary(total_files_scanned: usize, results: &[(String, Vec<Match>)]) -> (r: JsonSummary)
    ensures
        r.total_files_scanned == total_files_scanned,
        r.files_with_matches == results@.len(),
        r.total_matches == all_ids(results@).len(),
        all_ids(results@).len() == 0 ==> r.worst_rule@ == Seq::<char>::empty(),
        all_ids(results@).len() > 0 ==> exists|b: int|
            is_worst(all_ids(results@), b) && #[trigger] all_ids(results@)[b] == r.worst_rule@,
{
    let ids = fired_rule_ids(results);
    let worst = match worst_rule(results) {
        Some((w, _)) => w,
        None => String::new(),
    };
    JsonSummary {
        total_files_scanned,
        files_with_matches: results.len(),
        total_matches: ids.len(),
        worst_rule: worst,
    }
}

/// The ids of the rules that never fired, in the order of `all_rule_ids`.
pub open spec fn spec_never_fired(all: Seq<Seq<char>>, fired: Seq<Seq<char>>) -> Seq<Seq<char>>
    decreases all.len(),
{
    if all.len() == 0 {
        seq![]
    } else {
        spec_never_fired(all.drop_last(), fired) + if fired.contains(all.last()) {
            seq![]
        } else {
            seq![all.last()]
        }
    }
}

/// The active rules that never fired: those of `all_rule_ids` that are not
/// among the rules that fired.
pub fn never_fired(all_rule_ids: &[String], fired: &[String]) -> (r: Vec<String>)
    ensures
        texts(r@) == spec_never_fired(texts(all_rule_ids@), texts(fired@)),
{
    let ghost all = texts(all_rule_ids@);
    let mut out: Vec<String> = Vec::new();
    let mut k: usize = 0;
    proof {
        assert(all.take(0) == Seq::<Seq<char>>::empty());
        assert(texts(out@) =~= spec_never_fired(all.take(0), texts(fired@)));
    }
    while k < all_rule_ids.len()
        invariant
            all == texts(all_rule_ids@),
            k <= all_rule_ids@.len(),
            texts(out@) == spec_never_fired(all.take(k as int), texts(fired@)),
        decreases all_rule_ids@.len() - k,
    {
        proof {
            assert(all.take(k + 1).drop_last() == all.take(k as int));
            assert(all.take(k + 1).last() == all_rule_ids@[k as int]@);
        }
        if !listed(fired, all_rule_ids[k].as_str()) {
            let ghost before = out@;
            out.push(all_rule_ids[k].clone());
            assert(out@ == before.push(out@.last()));
            assert(texts(out@) =~= texts(before).push(all_rule_ids@[k as int]@));
        }
        k = k + 1;
    }
    assert(all.take(k as int) == all);
    out
}

// ── Summary ─────────────────────────────────────────────────────────────

/// The categories in alphabetical order of their names.
pub open spec fn tally_order() -> Seq<Category> {
    seq![
        Category::Code,
        Category::Custom,
        Category::PackSpecific,
        Category::Prose,
        Category::Symbol,
        Category::Typographic,
    ]
}

/// The number of matches of category `c`.
pub open spec fn category_count(ms: Seq<MatchView>, c: Category) -> int
    decreases ms.len(),
{
    if ms.len() == 0 {
        0
    } else {
        category_count(ms.drop_last(), c) + if ms.last().category == c {
            1int
        } else {
            0int
        }
    }
}

/// `name:count` for each of the categories that occur among the matches.
pub open spec fn tally_parts(ms: Seq<MatchView>, cats: Seq<Category>) -> Seq<Seq<char>>
    decreases cats.len(),
{
    if cats.len() == 0 {
        seq![]
    } else {
        let c = cats.last();
        let n = category_count(ms, c);
        tally_parts(ms, cats.drop_last()) + if n > 0 {
            seq![c.spec_name() + ":"@ + decimal(n as nat)]
        } else {
            seq![]
        }
    }
}

/// The matches per category, `name:count` in alphabetical order of the
/// names, joined by `, `.
pub open spec fn tally(ms: Seq<MatchView>) -> Seq<char> {
    join_with(tally_parts(ms, tally_order()), ", "@)
}

/// The position of a category in [`tally_order`].
fn tally_index(c: Category) -> (r: usize)
    ensures
        r < 6,
        tally_order()[r as int] == c,
{
    match c {
        Category::Code => 0,
        Category::Custom => 1,
        Category::PackSpecific => 2,
        Category::Prose => 3,
        Category::Symbol => 4,
        Category::Typographic => 5,
    }
}

/// The matches per category, `name:count` in alphabetical order of the
/// names, joined by `, `.
pub fn category_tally(matches: &[Match]) -> (r: String)
    ensures
        r@ == tally(views(matches@)),
{
    let ghost ms = views(matches@);
    let mut counts: Vec<usize> = vec![0, 0, 0, 0, 0, 0];
    let mut k: usize = 0;
    proof {
        assert(ms.take(0) == Seq::<MatchView>::empty());
    }
    while k < matches.len()
        invariant
            ms == views(matches@),
            k <= matches@.len(),
            counts@.len() == 6,
            forall|i: int|
                0 <= i < 6 ==> #[trigger] counts@[i] as int == category_count(
                    ms.take(k as int),
                    tally_order()[i],
                ),
            forall|i: int| 0 <= i < 6 ==> #[trigger] counts@[i] <= k,
        decreases matches@.len() - k,
    {
        let ghost before = counts@;
        let i = tally_index(matches[k].category);
        proof {
            assert(ms.take(k + 1).drop_last() == ms.take(k as int));
            assert(ms.take(k + 1).last() == matches@[k as int]@);
        }
        let v = counts[i];
        counts.set(i, v + 1);
        assert forall|q: int| 0 <= q < 6 implies #[trigger] counts@[q] as int == category_count(
            ms.take(k + 1),
            tally_order()[q],
        ) by {
            assert(before[q] as int == category_count(ms.take(k as int), tally_order()[q]));
        }
        assert forall|q: int| 0 <= q < 6 implies #[trigger] counts@[q] <= k + 1 by {
            assert(before[q] <= k);
        }
        k = k + 1;
    }
    assert(ms.take(k as int) == ms);
    let mut out = String::new();
    let mut first = true;
    let mut i: usize = 0;
    proof {
        assert(tally_order().take(0) == Seq::<Category>::empty());
        reveal_strlit("");
    }
    while i < 6
        invariant
            i <= 6,
            counts@.len() == 6,
            forall|q: int| 0 <= q < 6 ==> #[trigger] counts@[q] as int == category_count(ms, tally_order()[q]),
            out@ == join_with(tally_parts(ms, tally_order().take(i as int)), ", "@),
            first == (tally_parts(ms, tally_order().take(i as int)).len() == 0),
        decreases 6 - i,
    {
        let ghost parts = tally_parts(ms, tally_order().take(i as int));
        let c = match i {
            0 => Category::Code,
            1 => Category::Custom,
            2 => Category::PackSpecific,
            3 => Category::Prose,
            4 => Category::Symbol,
            _ => Category::Typographic,
        };
        assert(c == tally_order()[i as int]);
        proof {
            assert(tally_order().take(i + 1).drop_last() == tally_order().take(i as int));
            assert(tally_order().take(i + 1).last() == c);
        }
        let n = counts[i];
        if n > 0 {
            let ghost part = c.spec_name() + ":"@ + decimal(n as nat);
            let ghost before = out@;
            if !first {
                push_str(&mut out, ", ");
            }
            push_str(&mut out, c.name());
            push_str(&mut out, ":");
            push_decimal(&mut out, n);
            proof {
                reveal_strlit(", ");
                reveal_strlit(":");
                let np = parts.push(part);
                assert(np.drop_last() == parts);
                if parts.len() == 0 {
                    assert(out@ == part);
                } else {
                    assert(out@ == before + ", "@ + part);
                }
                assert(out@ == join_with(np, ", "@));
                assert(tally_parts(ms, tally_order().take(i + 1)) =~= parts + seq![part]);
                assert(parts + seq![part] =~= np);
            }
            first = false;
        } else {
            assert(tally_parts(ms, tally_order().take(i + 1)) == parts);
        }
        i = i + 1;
    }
    assert(tally_order().take(6) == tally_order());
    out
}

/// One line of the summary: a file, its number of matches, its number of
/// characters and its matches per category.
pub struct SummaryRow {
    pub path: String,
    pub hits: usize,
    pub chars: usize,
    pub categories: String,
}

/// The mathematical value of a [`SummaryRow`].
pub struct RowView {
    pub path: Seq<char>,
    pub hits: int,
    pub chars: int,
    pub categories: Seq<char>,
}

impl View for SummaryRow {
    type V = RowView;

    open spec fn view(&self) -> RowView {
        RowView {
            path: self.path@,
            hits: self.hits as int,
            chars: self.chars as int,
            categories: self.categories@,
        }
    }
}

/// The row of a file before ordering.
pub open spec fn row_of(r: (String, Vec<Match>), chars: usize) -> RowView {
    RowView {
        path: r.0@,
        hits: r.1@.len() as int,
        chars: chars as int,
        categories: tally(views(r.1@)),
    }
}

/// The density key of a row: matches per character, zero when the file
/// has no matches or no characters.
pub open spec fn row_key(v: RowView) -> (int, int) {
    if v.hits > 0 && v.chars > 0 {
        (v.hits, v.chars)
    } else {
        (0, 1)
    }
}

/// The rows of the summary, densest file first, equal densities in the
/// order of `results`.
pub open spec fn spec_summary_rows(results: Seq<(String, Vec<Match>)>, chars: Seq<usize>) -> Seq<
    RowView,
> {
    let raw = Seq::new(results.len(), |k: int| row_of(results[k], chars[k]));
    let keys = Seq::new(raw.len(), |k: int| row_key(raw[k]));
    let ord = density_order(keys, raw.len() as int);
    Seq::new(raw.len(), |a: int| raw[ord[a]])
}

/// The views of rows.
pub open spec fn row_views(v: Seq<SummaryRow>) -> Seq<RowView> {
    Seq::new(v.len(), |k: int| v[k]@)
}

/// The rows of the summary, one per file (`char_counts[k]` characters in
/// file `k`), densest file first, equal densities in the order of
/// `results`.
pub fn summary_rows(results: &[(String, Vec<Match>)], char_counts: &[usize]) -> (r: Vec<SummaryRow>)
    requires
        char_counts@.len() == results@.len(),
    ensures
        row_views(r@) == spec_summary_rows(results@, char_counts@),
{
    let ghost raw_spec = Seq::new(results@.len(), |k: int| row_of(results@[k], char_counts@[k]));
    let mut raw: Vec<SummaryRow> = Vec::new();
    let mut keys: Vec<(usize, usize)> = Vec::new();
    let mut k: usize = 0;
    while k < results.len()
        invariant
            k <= results@.len(),
            char_counts@.len() == results@.len(),
            raw_spec == Seq::new(results@.len(), |k: int| row_of(results@[k], char_counts@[k])),
            raw@.len() == k,
            keys@.len() == k,
            forall|j: int| 0 <= j < k ==> #[trigger] raw@[j]@ == raw_spec[j],
            forall|j: int|
                0 <= j < k ==> (#[trigger] keys@[j].0 as int, keys@[j].1 as int) == row_key(raw_spec[j]),
        decreases results@.len() - k,
    {
        let hits = results[k].1.len();
        let chars = char_counts[k];
        let row = SummaryRow {
            path: results[k].0.clone(),
            hits,
            chars,
            categories: category_tally(results[k].1.as_slice()),
        };
        if hits > 0 && chars > 0 {
            keys.push((hits, chars));
        } else {
            keys.push((0, 1));
        }
        raw.push(row);
        k = k + 1;
    }
    let ghost kv = Seq::new(raw_spec.len(), |j: int| row_key(raw_spec[j]));
    let order = order_by_density(&keys);
    assert(key_view(keys@) =~= kv);
    let mut out: Vec<SummaryRow> = Vec::new();
    let mut a: usize = 0;
    while a < order.len()
        invariant
            a <= order@.len(),
            out@.len() == a,
            order@.len() == raw@.len(),
            raw@.len() == raw_spec.len(),
            forall|j: int| 0 <= j < raw@.len() ==> #[trigger] raw@[j]@ == raw_spec[j],
            forall|q: int| 0 <= q < order@.len() ==> #[trigger] order@[q] < raw@.len(),
            forall|q: int|
                0 <= q < order@.len() ==> order@[q] as int == density_order(kv, raw_spec.len() as int)[q],
            forall|q: int|
                0 <= q < a ==> #[trigger] out@[q]@ == raw_spec[density_order(kv, raw_spec.len() as int)[q]],
        decreases order@.len() - a,
    {
        let r = &raw[order[a]];
        out.push(SummaryRow {
            path: r.path.clone(),
            hits: r.hits,
            chars: r.chars,
            categories: r.categories.clone(),
        });
        a = a + 1;
    }
    assert(row_views(out@) =~= spec_summary_rows(results@, char_counts@));
    out
}

/// Files with at least one match.
pub open spec fn files_with_matches(results: Seq<(String, Vec<Match>)>) -> int
    decreases results.len(),
{
    if results.len() == 0 {
        0
    } else {
        files_with_matches(results.drop_last()) + if results.last().1@.len() > 0 {
            1int
        } else {
            0int
        }
    }
}

/// The totals of the summary: the files with matches and the matches.
pub fn summary_totals(results: &[(String, Vec<Match>)]) -> (r: (usize, usize))
    ensures
        r.0 as int == files_with_matches(results@),
        r.1 as int == all_ids(results@).len(),
{
    let ids = fired_rule_ids(results);
    let mut n: usize = 0;
    let mut k: usize = 0;
    proof {
        assert(results@.take(0) == Seq::<(String, Vec<Match>)>::empty());
    }
    while k < results.len()
        invariant
            k <= results@.len(),
            n <= k,
            n as int == files_with_matches(results@.take(k as int)),
        decreases results@.len() - k,
    {
        proof {
            assert(results@.take(k + 1).drop_last() == results@.take(k as int));
            assert(results@.take(k + 1).last() == results@[k as int]);
        }
        if results[k].1.len() > 0 {
            n = n + 1;
        }
        k = k + 1;
    }
    assert(results@.take(k as int) == results@);
    (n, ids.len())
}

// ── Sentences over all files ────────────────────────────────────────────

/// The scores of a file, each with the file's path.
pub open spec fn tagged(f: (String, Vec<SentenceScore>)) -> Seq<(Seq<char>, ScoreView)> {
    Seq::new(f.1@.len(), |k: int| (f.0@, f.1@[k]@))
}

/// The scores of every file, file after file, each with its path.
pub open spec fn all_scores(files: Seq<(String, Vec<SentenceScore>)>) -> Seq<(Seq<char>, ScoreView)>
    decreases files.len(),
{
    if files.len() == 0 {
        seq![]
    } else {
        all_scores(files.drop_last()) + tagged(files.last())
    }
}

/// The `top_n` densest sentences of all files, densest first, equal
/// densities in the order of the files and of their sentences.
pub open spec fn spec_rank(files: Seq<(String, Vec<SentenceScore>)>, top_n: int) -> Seq<
    (Seq<char>, ScoreView),
> {
    let all = all_scores(files);
    let keys = Seq::new(all.len(), |k: int| (all[k].1.hits, all[k].1.word_count));
    let ord = density_order(keys, all.len() as int);
    let n = if top_n < all.len() {
        top_n
    } else {
        all.len() as int
    };
    Seq::new(n as nat, |a: int| all[ord[a]])
}

/// The views of path-tagged scores.
pub open spec fn tagged_views(v: Seq<(String, SentenceScore)>) -> Seq<(Seq<char>, ScoreView)> {
    Seq::new(v.len(), |k: int| (v[k].0@, v[k].1@))
}

/// The `top_n` sentences with the highest density over all files, each
/// with its file's path; equal densities in the order of the files and of
/// their sentences.
pub fn rank_sentences(file_scores: &[(String, Vec<SentenceScore>)], top_n: usize) -> (r: Vec<
    (String, SentenceScore),
>)
    ensures
        tagged_views(r@) == spec_rank(file_scores@, top_n as int),
{
    let mut all: Vec<(String, SentenceScore)> = Vec::new();
    let mut f: usize = 0;
    proof {
        assert(file_scores@.take(0) == Seq::<(String, Vec<SentenceScore>)>::empty());
        assert(tagged_views(all@) =~= all_scores(file_scores@.take(0)));
    }
    while f < file_scores.len()
        invariant
            f <= file_scores@.len(),
            tagged_views(all@) == all_scores(file_scores@.take(f as int)),
        decreases file_scores@.len() - f,
    {
        let scores = &file_scores[f].1;
        let ghost base = all@;
        let mut k: usize = 0;
        while k < scores.len()
            invariant
                k <= scores@.len(),
                all@.len() == base.len() + k,
                tagged_views(all@) == tagged_views(base) + tagged(file_scores@[f as int]).take(k as int),
                f < file_scores@.len(),
                scores == file_scores@[f as int].1,
            decreases scores@.len() - k,
        {
            let ghost before = all@;
            let x = (file_scores[f].0.clone(), scores[k].duplicate());
            all.push(x);
            assert(all@ == before.push(all@.last()));
            assert forall|q: int| 0 <= q < all@.len() implies #[trigger] tagged_views(all@)[q] == (
            tagged_views(base) + tagged(file_scores@[f as int]).take(k + 1))[q] by {
                if q < before.len() {
                    assert(tagged_views(all@)[q] == tagged_views(before)[q]);
                }
            }
            assert(tagged_views(all@) =~= tagged_views(base) + tagged(file_scores@[f as int]).take(
                k + 1,
            ));
            k = k + 1;
        }
        proof {
            assert(tagged(file_scores@[f as int]).take(k as int) == tagged(file_scores@[f as int]));
            assert(file_scores@.take(f + 1).drop_last() == file_scores@.take(f as int));
            assert(file_scores@.take(f + 1).last() == file_scores@[f as int]);
        }
        f = f + 1;
    }
    assert(file_scores@.take(f as int) == file_scores@);
    let ghost av = all_scores(file_scores@);
    let ghost kv = Seq::new(av.len(), |k: int| (av[k].1.hits, av[k].1.word_count));
    let mut keys: Vec<(usize, usize)> = Vec::new();
    let mut k: usize = 0;
    while k < all.len()
        invariant
            k <= all@.len(),
            tagged_views(all@) == av,
            kv == Seq::new(av.len(), |k: int| (av[k].1.hits, av[k].1.word_count)),
            keys@.len() == k,
            forall|j: int| 0 <= j < k ==> key_view(keys@)[j] == #[trigger] kv[j],
        decreases all@.len() - k,
    {
        assert(tagged_views(all@)[k as int] == (all@[k as int].0@, all@[k as int].1@));
        keys.push((all[k].1.hits, all[k].1.word_count));
        k = k + 1;
    }
    assert(key_view(keys@) =~= kv);
    let order = order_by_density(&keys);
    let n = if top_n < all.len() {
        top_n
    } else {
        all.len()
    };
    let mut out: Vec<(String, SentenceScore)> = Vec::new();
    let mut a: usize = 0;
    while a < n
        invariant
            a <= n,
            n <= order@.len(),
            out@.len() == a,
            order@.len() == all@.len(),
            tagged_views(all@) == av,
            forall|q: int| 0 <= q < order@.len() ==> #[trigger] order@[q] < all@.len(),
            forall|q: int|
                0 <= q < order@.len() ==> order@[q] as int == density_order(kv, av.len() as int)[q],
            forall|q: int|
                0 <= q < a ==> #[trigger] tagged_views(out@)[q] == av[density_order(
                    kv,
                    av.len() as int,
                )[q]],
        decreases n - a,
    {
        let ghost before = out@;
        let i = order[a];
        let x = (all[i].0.clone(), all[i].1.duplicate());
        out.push(x);
        assert(out@ == before.push(out@.last()));
        assert(tagged_views(all@)[i as int] == (all@[i as int].0@, all@[i as int].1@));
        assert forall|q: int| 0 <= q < a + 1 implies #[trigger] tagged_views(out@)[q] == av[density_order(
            kv,
            av.len() as int,
        )[q]] by {
            if q < a {
                assert(tagged_views(out@)[q] == tagged_views(before)[q]);
            }
        }
        a = a + 1;
    }
    assert(tagged_views(out@) =~= spec_rank(file_scores@, top_n as int));
    out
}

} // verus!
