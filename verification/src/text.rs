//! Byte-level views of UTF-8 text: line/column positions and scalar decoding.

use vstd::prelude::*;
use vstd::utf8::*;
use vstd::string::*;

verus! {

/// The (line, column) pair, both 1-indexed, reached after reading the first
/// `n` bytes of `b`. Columns count characters: a continuation byte of a
/// multi-byte scalar does not advance the column.
pub open spec fn line_col_prefix(b: Seq<u8>, n: int) -> (int, int)
    decreases n,
{
    if n <= 0 {
        (1, 1)
    } else {
        let lc = line_col_prefix(b, n - 1);
        if is_continuation_byte(b[n - 1]) {
            lc
        } else if b[n - 1] == 10u8 {
            (lc.0 + 1, 1)
        } else {
            (lc.0, lc.1 + 1)
        }
    }
}

/// Line and column of the character at byte offset `off`: every character
/// that starts before `off` is counted.
pub open spec fn line_col_at(b: Seq<u8>, off: int) -> (int, int) {
    if off < b.len() {
        line_col_prefix(b, off)
    } else {
        line_col_prefix(b, b.len() as int)
    }
}

proof fn lemma_line_col_bounds(b: Seq<u8>, n: int)
    requires
        0 <= n,
    ensures
        1 <= line_col_prefix(b, n).0 <= n + 1,
        1 <= line_col_prefix(b, n).1 <= n + 1,
    decreases n,
{
    if n > 0 {
        lemma_line_col_bounds(b, n - 1);
    }
}

/// Compute 1-indexed line and column from a byte offset in content.
pub fn line_col_from_offset(content: &str, byte_offset: usize) -> (r: (usize, usize))
    requires
        content.spec_bytes().len() < usize::MAX,
    ensures
        r.0 as int == line_col_at(content.spec_bytes(), byte_offset as int).0,
        r.1 as int == line_col_at(content.spec_bytes(), byte_offset as int).1,
{
    let b = content.as_bytes();
    let n = if byte_offset < b.len() { byte_offset } else { b.len() };
    let mut line: usize = 1;
    let mut col: usize = 1;
    let mut i: usize = 0;
    while i < n
        invariant
            n <= b@.len() < usize::MAX,
            i <= n,
            b@ == content.spec_bytes(),
            (line as int, col as int) == line_col_prefix(b@, i as int),
        decreases n - i,
    {
        proof {
            lemma_line_col_bounds(b@, i as int);
        }
        let byte = b[i];
        if byte & 0xC0u8 == 0x80u8 {
        } else if byte == 10u8 {
            line = line + 1;
            col = 1;
        } else {
            col = col + 1;
        }
        assert(is_continuation_byte(byte) <==> (byte & 0xC0u8 == 0x80u8)) by (bit_vector);
        i = i + 1;
    }
    (line, col)
}


/// Position `p` holds the first byte of a character: it is inside `b` and its
/// byte is not a UTF-8 continuation byte.
pub open spec fn char_start(b: Seq<u8>, p: int) -> bool {
    0 <= p < b.len() && !is_continuation_byte(b[p])
}

/// Position `p` lies between two characters of `b` (or at its end).
pub open spec fn boundary(b: Seq<u8>, p: int) -> bool {
    p == b.len() || char_start(b, p)
}

/// Scalar value of the character that starts at `p`.
pub open spec fn scalar_at(b: Seq<u8>, p: int) -> u32 {
    decode_first_scalar(b.subrange(p, b.len() as int))
}

/// Encoded width in bytes of the character that starts at `p`.
pub open spec fn width_at(b: Seq<u8>, p: int) -> int {
    length_of_first_scalar(b.subrange(p, b.len() as int))
}

/// The characters encoded by the bytes `b[s..e]`.
pub open spec fn text_of(b: Seq<u8>, s: int, e: int) -> Seq<char> {
    decode_utf8(b.subrange(s, e))
}

/// A character that starts at `p` is a whole, well-formed scalar, and the
/// position right after it is again a boundary.
pub proof fn lemma_char_start(b: Seq<u8>, p: int)
    requires
        valid_utf8(b),
        char_start(b, p),
    ensures
        valid_first_scalar(b.subrange(p, b.len() as int)),
        1 <= width_at(b, p) <= 4,
        p + width_at(b, p) <= b.len(),
        boundary(b, p + width_at(b, p)),
        is_char_boundary(b, p),
{
    is_char_boundary_iff_not_is_continuation_byte(b, p);
    valid_utf8_split(b, p);
    let s = b.subrange(p, b.len() as int);
    let w = length_of_first_scalar(s);
    let rest = pop_first_scalar(s);
    assert(valid_utf8(rest));
    assert(rest.len() == s.len() - w);
    if p + w < b.len() {
        assert(rest.len() > 0);
        assert(valid_first_scalar(rest));
        assert(rest[0] == b[p + w]);
    }
}

/// Within valid UTF-8, our notion of a boundary coincides with vstd's.
pub proof fn lemma_boundary(b: Seq<u8>, p: int)
    requires
        valid_utf8(b),
        boundary(b, p),
    ensures
        is_char_boundary(b, p),
{
    if p == b.len() {
        is_char_boundary_start_end_of_seq(b);
    } else {
        is_char_boundary_iff_not_is_continuation_byte(b, p);
    }
}

/// Splitting valid UTF-8 at a boundary `s`, a later boundary `e` of the whole
/// sequence is a boundary of the suffix.
pub proof fn lemma_suffix_boundary(b: Seq<u8>, s: int, e: int)
    requires
        valid_utf8(b),
        boundary(b, s),
        boundary(b, e),
        s <= e,
    ensures
        valid_utf8(b.subrange(s, b.len() as int)),
        is_char_boundary(b.subrange(s, b.len() as int), e - s),
        boundary(b.subrange(s, b.len() as int), e - s),
{
    lemma_boundary(b, s);
    valid_utf8_split(b, s);
    let suf = b.subrange(s, b.len() as int);
    if e == b.len() {
        is_char_boundary_start_end_of_seq(suf);
    } else {
        assert(suf[e - s] == b[e]);
        is_char_boundary_iff_not_is_continuation_byte(suf, e - s);
    }
}

/// The bytes `content[start..end]` as a string slice.
pub fn substring(content: &str, start: usize, end: usize) -> (r: &str)
    requires
        start <= end,
        boundary(content.spec_bytes(), start as int),
        boundary(content.spec_bytes(), end as int),
    ensures
        r.spec_bytes() == content.spec_bytes().subrange(start as int, end as int),
        r@ == text_of(content.spec_bytes(), start as int, end as int),
{
    let ghost b = content.spec_bytes();
    proof {
        encode_utf8_valid_utf8(content@);
        lemma_boundary(b, start as int);
        lemma_suffix_boundary(b, start as int, end as int);
    }
    let (_head, tail) = content.split_at(start);
    proof {
        assert(tail.spec_bytes() == b.subrange(start as int, b.len() as int));
    }
    let (mid, _rest) = tail.split_at(end - start);
    proof {
        assert(mid.spec_bytes() =~= b.subrange(start as int, end as int));
        encode_utf8_decode_utf8(mid@);
    }
    mid
}

/// Scalar value and encoded width of the character that starts at `p`.
pub fn decode_at(b: &[u8], p: usize) -> (r: (u32, usize))
    requires
        valid_utf8(b@),
        char_start(b@, p as int),
    ensures
        r.0 == scalar_at(b@, p as int),
        r.1 as int == width_at(b@, p as int),
        1 <= r.1 <= 4,
        p + r.1 <= b@.len(),
        boundary(b@, p + r.1),
{
    proof {
        lemma_char_start(b@, p as int);
    }
    let ghost s = b@.subrange(p as int, b@.len() as int);
    let b0 = b[p];
    assert(s[0] == b0);
    if b0 <= 0x7f {
        ((b0 & 0x7F) as u32, 1)
    } else if b0 <= 0xdf {
        let b1 = b[p + 1];
        assert(s[1] == b1);
        ((((b0 & 0x1F) as u32) << 6u32) | ((b1 & 0x3f) as u32), 2)
    } else if b0 <= 0xef {
        let b1 = b[p + 1];
        let b2 = b[p + 2];
        assert(s[1] == b1 && s[2] == b2);
        (
            (((b0 & 0x0F) as u32) << 12u32) | (((b1 & 0x3f) as u32) << 6u32) | ((b2 & 0x3f) as u32),
            3,
        )
    } else {
        let b1 = b[p + 1];
        let b2 = b[p + 2];
        let b3 = b[p + 3];
        assert(s[1] == b1 && s[2] == b2 && s[3] == b3);
        (
            (((b0 & 0x07) as u32) << 18u32) | (((b1 & 0x3f) as u32) << 12u32) | (((b2 & 0x3f) as u32)
                << 6u32) | ((b3 & 0x3f) as u32),
            4,
        )
    }
}


/// Encoding distributes over concatenation.
pub proof fn lemma_encode_concat(x: Seq<char>, y: Seq<char>)
    ensures
        encode_utf8(x + y) == encode_utf8(x) + encode_utf8(y),
    decreases x.len(),
{
    if x.len() == 0 {
        assert(x + y == y);
    } else {
        lemma_encode_concat(x.drop_first(), y);
        assert((x + y).drop_first() == x.drop_first() + y);
        assert((x + y)[0] == x[0]);
    }
}

/// Two strings are equal as characters exactly when they are equal as bytes.
pub proof fn lemma_bytes_eq(a: Seq<char>, b: Seq<char>)
    ensures
        (encode_utf8(a) == encode_utf8(b)) == (a == b),
{
    encode_utf8_decode_utf8(a);
    encode_utf8_decode_utf8(b);
}

/// String equality.
pub fn str_eq(a: &str, b: &str) -> (r: bool)
    ensures
        r == (a@ == b@),
{
    let x = a.as_bytes();
    let y = b.as_bytes();
    proof {
        lemma_bytes_eq(a@, b@);
    }
    if x.len() != y.len() {
        return false;
    }
    let mut i: usize = 0;
    while i < x.len()
        invariant
            x@.len() == y@.len(),
            (x@ == y@) == (a@ == b@),
            i <= x@.len(),
            forall|k: int| 0 <= k < i ==> x@[k] == y@[k],
        decreases x@.len() - i,
    {
        if x[i] != y[i] {
            return false;
        }
        i = i + 1;
    }
    assert(x@ == y@);
    true
}

/// Appends the characters of `s` to `out`.
pub fn push_str(out: &mut String, s: &str)
    ensures
        final(out)@ == old(out)@ + s@,
        encode_utf8(final(out)@) == encode_utf8(old(out)@) + s.spec_bytes(),
{
    proof {
        lemma_encode_concat(out@, s@);
    }
    out.append(s);
}


proof fn lemma_ascii_byte(v: u32)
    by (bit_vector)
    requires
        v < 0x80,
    ensures
        ((v & 0x7F) as u8) == (v as u8),
{
}

/// A one-character string of an ASCII character encodes as that one byte.
pub proof fn lemma_ascii_char(c: char)
    requires
        (c as u32) < 0x80,
    ensures
        encode_utf8(seq![c]) == seq![(c as u32) as u8],
{
    lemma_ascii_byte(c as u32);
    assert(seq![c].drop_first() == Seq::<char>::empty());
    assert(encode_utf8(Seq::<char>::empty()) == Seq::<u8>::empty());
}

/// Appends a newline to `out`.
pub fn push_newline(out: &mut String)
    ensures
        encode_utf8(final(out)@) == encode_utf8(old(out)@) + seq![10u8],
{
    proof {
        reveal_strlit("\n");
        assert("\n"@ =~= seq!['\n']);
        lemma_ascii_char('\n');
        assert(('\n' as u32) as u8 == 10u8);
    }
    push_str(out, "\n");
}


/// Within valid UTF-8, vstd's boundaries are boundaries in our sense.
pub proof fn lemma_char_boundary(b: Seq<u8>, p: int)
    requires
        valid_utf8(b),
        is_char_boundary(b, p),
    ensures
        boundary(b, p),
        0 <= p <= b.len(),
{
    reveal_with_fuel(is_char_boundary, 1);
    if 0 <= p < b.len() {
        is_char_boundary_iff_not_is_continuation_byte(b, p);
    }
}

/// Replace the bytes `[s, e)` of `cur` by `rep` when both ends are character
/// boundaries; otherwise leave `cur` unchanged.
pub fn replace_checked(cur: &mut String, s: usize, e: usize, rep: &str)
    ensures
        encode_utf8(final(cur)@) == (if s <= e && is_char_boundary(encode_utf8(old(cur)@), s as int)
            && is_char_boundary(encode_utf8(old(cur)@), e as int) {
            encode_utf8(old(cur)@).subrange(0, s as int) + rep.spec_bytes() + encode_utf8(
                old(cur)@,
            ).subrange(e as int, encode_utf8(old(cur)@).len() as int)
        } else {
            encode_utf8(old(cur)@)
        }),
{
    let ghost t = encode_utf8(cur@);
    let src: &str = cur.as_str();
    proof {
        encode_utf8_valid_utf8(cur@);
        assert(src.spec_bytes() == t);
    }
    if s <= e && src.is_char_boundary(s) && src.is_char_boundary(e) {
        proof {
            lemma_char_boundary(t, s as int);
            lemma_char_boundary(t, e as int);
        }
        let n = src.as_bytes().len();
        let head = substring(src, 0, s);
        let tail = substring(src, e, n);
        let mut out = String::new();
        push_str(&mut out, head);
        push_str(&mut out, rep);
        push_str(&mut out, tail);
        assert(encode_utf8(Seq::<char>::empty()) == Seq::<u8>::empty());
        *cur = out;
    }
}


/// The character with index `k` of `chars` begins at the byte offset where
/// the encoding of the characters before it ends.
pub proof fn lemma_char_offset(chars: Seq<char>, k: int)
    requires
        0 <= k < chars.len(),
    ensures
        char_start(encode_utf8(chars), encode_utf8(chars.take(k)).len() as int),
        scalar_at(encode_utf8(chars), encode_utf8(chars.take(k)).len() as int) == chars[k] as u32,
        encode_utf8(chars.take(k)).len() + width_at(
            encode_utf8(chars),
            encode_utf8(chars.take(k)).len() as int,
        ) == encode_utf8(chars.take(k + 1)).len(),
{
    let b = encode_utf8(chars);
    let pre = chars.take(k);
    let suf = chars.skip(k);
    assert(pre + suf == chars);
    lemma_encode_concat(pre, suf);
    let off = encode_utf8(pre).len() as int;
    assert(b.subrange(off, b.len() as int) == encode_utf8(suf));
    encode_utf8_first_scalar(suf);
    assert(suf[0] == chars[k]);
    assert(chars.take(k + 1) == pre + seq![chars[k]]);
    lemma_encode_concat(pre, seq![chars[k]]);
    assert(seq![chars[k]].drop_first() == Seq::<char>::empty());
    assert(encode_utf8(seq![chars[k]]) == encode_scalar(chars[k] as u32) + encode_utf8(
        Seq::<char>::empty(),
    ));
    assert(encode_utf8(suf) == encode_scalar(suf[0] as u32) + encode_utf8(suf.drop_first()));
    assert(b[off] == encode_utf8(suf)[0]);
}

/// The characters of a string, one by one.
pub fn chars_of(s: &str) -> (r: Vec<char>)
    ensures
        r@ == s@,
{
    let b = s.as_bytes();
    let ghost cs = s@;
    proof {
        encode_utf8_valid_utf8(cs);
    }
    let mut out: Vec<char> = Vec::new();
    let mut p: usize = 0;
    while p < b.len()
        invariant
            b@ == encode_utf8(cs),
            valid_utf8(b@),
            out@.len() <= cs.len(),
            out@ == cs.take(out@.len() as int),
            p as int == encode_utf8(cs.take(out@.len() as int)).len(),
            p <= b@.len(),
        decreases b@.len() - p,
    {
        let ghost k = out@.len() as int;
        proof {
            if k == cs.len() {
                assert(cs.take(k) == cs);
                assert(false);
            }
            lemma_char_offset(cs, k);
            char_is_scalar(cs[k]);
        }
        let (cp, w) = decode_at(b, p);
        let c = crate::bindings::char_from_scalar(cp);
        proof {
            char_u32_cast(cs[k], cp);
        }
        out.push(c);
        assert(out@ == cs.take(k + 1));
        p = p + w;
    }
    proof {
        if out@.len() < cs.len() {
            let k = out@.len() as int;
            assert(cs.take(k) + cs.skip(k) == cs);
            lemma_encode_concat(cs.take(k), cs.skip(k));
            encode_utf8_first_scalar(cs.skip(k));
        }
    }
    assert(out@ == cs);
    out
}


/// The byte offset where each character of `s` starts, and its byte length last.
pub fn char_offsets(s: &str) -> (offs: Vec<usize>)
    ensures
        offs@.len() == s@.len() + 1,
        forall|k: int| 0 <= k <= s@.len() ==> offs@[k] as int == encode_utf8(s@.take(k)).len(),
{
    let b = s.as_bytes();
    let ghost cs = s@;
    proof {
        encode_utf8_valid_utf8(cs);
        assert(cs.take(0) == Seq::<char>::empty());
        assert(encode_utf8(Seq::<char>::empty()) == Seq::<u8>::empty());
    }
    let mut offs: Vec<usize> = Vec::new();
    offs.push(0);
    let mut p: usize = 0;
    while p < b.len()
        invariant
            b@ == encode_utf8(cs),
            valid_utf8(b@),
            1 <= offs@.len() <= cs.len() + 1,
            forall|k: int| 0 <= k < offs@.len() ==> offs@[k] as int == encode_utf8(cs.take(k)).len(),
            p as int == offs@[offs@.len() - 1],
            p <= b@.len(),
        decreases b@.len() - p,
    {
        let ghost k = offs@.len() - 1;
        proof {
            if k == cs.len() {
                assert(cs.take(k) == cs);
                assert(false);
            }
            lemma_char_offset(cs, k);
        }
        let (_cp, w) = decode_at(b, p);
        p = p + w;
        offs.push(p);
    }
    proof {
        let k = offs@.len() - 1;
        if k < cs.len() {
            assert(cs.take(k) + cs.skip(k) == cs);
            lemma_encode_concat(cs.take(k), cs.skip(k));
            encode_utf8_first_scalar(cs.skip(k));
        }
    }
    offs
}

/// The offsets of characters are boundaries, and the bytes between two of
/// them encode the characters between them.
pub proof fn lemma_char_range(cs: Seq<char>, a: int, z: int)
    requires
        0 <= a <= z <= cs.len(),
    ensures
        boundary(encode_utf8(cs), encode_utf8(cs.take(a)).len() as int),
        encode_utf8(cs.take(a)).len() <= encode_utf8(cs.take(z)).len() <= encode_utf8(cs).len(),
        encode_utf8(cs).subrange(
            encode_utf8(cs.take(a)).len() as int,
            encode_utf8(cs.take(z)).len() as int,
        ) == encode_utf8(cs.subrange(a, z)),
{
    if a < cs.len() {
        lemma_char_offset(cs, a);
    } else {
        assert(cs.take(a) == cs);
    }
    let pre = cs.take(a);
    let mid = cs.subrange(a, z);
    let post = cs.skip(z);
    assert(pre + mid + post == cs);
    assert(cs.take(z) == pre + mid);
    lemma_encode_concat(pre, mid);
    lemma_encode_concat(pre + mid, post);
}

/// The characters of `s` from index `a` up to `z`.
pub fn char_slice<'a>(s: &'a str, offs: &Vec<usize>, a: usize, z: usize) -> (r: &'a str)
    requires
        a <= z <= s@.len(),
        offs@.len() == s@.len() + 1,
        forall|k: int| 0 <= k <= s@.len() ==> offs@[k] as int == encode_utf8(s@.take(k)).len(),
    ensures
        r@ == s@.subrange(a as int, z as int),
        encode_utf8(r@).len() == offs@[z as int] - offs@[a as int],
{
    proof {
        lemma_char_range(s@, a as int, z as int);
        lemma_char_range(s@, z as int, z as int);
        encode_utf8_decode_utf8(s@.subrange(a as int, z as int));
    }
    substring(s, offs[a], offs[z])
}

/// Unicode `White_Space`, which `char::is_whitespace` tests.
pub open spec fn is_white_space(c: char) -> bool {
    let v = c as u32;
    (0x9 <= v <= 0xD) || v == 0x20 || v == 0x85 || v == 0xA0 || v == 0x1680 || (0x2000 <= v
        <= 0x200A) || v == 0x2028 || v == 0x2029 || v == 0x202F || v == 0x205F || v == 0x3000
}

/// Whether a character is Unicode white space.
pub fn white_space(c: char) -> (r: bool)
    ensures
        r == is_white_space(c),
{
    let v = c as u32;
    (0x9 <= v && v <= 0xD) || v == 0x20 || v == 0x85 || v == 0xA0 || v == 0x1680 || (0x2000 <= v
        && v <= 0x200A) || v == 0x2028 || v == 0x2029 || v == 0x202F || v == 0x205F || v == 0x3000
}

/// The index of the first character at or after `i` that is not white space.
pub open spec fn skip_white(cs: Seq<char>, i: int) -> int
    decreases cs.len() - i,
{
    if 0 <= i < cs.len() && is_white_space(cs[i]) {
        skip_white(cs, i + 1)
    } else {
        i
    }
}

/// The index just past the last character before `z` (and not before `a`)
/// that is not white space.
pub open spec fn back_white(cs: Seq<char>, a: int, z: int) -> int
    decreases z - a,
{
    if a < z && is_white_space(cs[z - 1]) {
        back_white(cs, a, z - 1)
    } else {
        z
    }
}

/// `str::trim`: the characters of `cs` without leading and trailing white space.
pub open spec fn trim_bounds(cs: Seq<char>) -> (int, int) {
    let a = skip_white(cs, 0);
    (a, back_white(cs, a, cs.len() as int))
}

proof fn lemma_skip_white(cs: Seq<char>, i: int)
    requires
        0 <= i <= cs.len(),
    ensures
        i <= skip_white(cs, i) <= cs.len(),
    decreases cs.len() - i,
{
    if i < cs.len() && is_white_space(cs[i]) {
        lemma_skip_white(cs, i + 1);
    }
}

proof fn lemma_back_white(cs: Seq<char>, a: int, z: int)
    requires
        0 <= a <= z <= cs.len(),
    ensures
        a <= back_white(cs, a, z) <= z,
    decreases z - a,
{
    if a < z && is_white_space(cs[z - 1]) {
        lemma_back_white(cs, a, z - 1);
    }
}

/// The bounds, as character indices, of a text with white space trimmed.
pub fn trim_chars(cs: &Vec<char>) -> (r: (usize, usize))
    ensures
        r.0 as int == trim_bounds(cs@).0,
        r.1 as int == trim_bounds(cs@).1,
        r.0 <= r.1 <= cs@.len(),
{
    let mut a: usize = 0;
    while a < cs.len() && white_space(cs[a])
        invariant
            a <= cs@.len(),
            skip_white(cs@, 0) == skip_white(cs@, a as int),
        decreases cs@.len() - a,
    {
        a = a + 1;
    }
    let mut z: usize = cs.len();
    while z > a && white_space(cs[z - 1])
        invariant
            a <= z <= cs@.len(),
            back_white(cs@, a as int, cs@.len() as int) == back_white(cs@, a as int, z as int),
        decreases z - a,
    {
        z = z - 1;
    }
    (a, z)
}


/// Whether byte offset `p` lies between two characters of `content`.
pub fn at_boundary(content: &str, p: usize) -> (r: bool)
    ensures
        r == boundary(content.spec_bytes(), p as int),
{
    let b = content.as_bytes();
    if p == b.len() {
        true
    } else if p < b.len() {
        let x = b[p];
        assert(is_continuation_byte(x) <==> (x & 0xC0u8 == 0x80u8)) by (bit_vector);
        x & 0xC0u8 != 0x80u8
    } else {
        false
    }
}


/// The characters of a text without leading and trailing white space.
pub open spec fn trimmed(cs: Seq<char>) -> Seq<char> {
    cs.subrange(trim_bounds(cs).0, trim_bounds(cs).1)
}

/// The characters start with the given ones.
pub open spec fn starts_with(cs: Seq<char>, p: Seq<char>) -> bool {
    p.len() <= cs.len() && cs.take(p.len() as int) == p
}

/// `str::replace(p, r)` for a non-empty `p`: every occurrence of `p`, found
/// left to right without overlap, replaced by `r`.
pub open spec fn replace_all(s: Seq<char>, p: Seq<char>, r: Seq<char>) -> Seq<char>
    decreases s.len(),
{
    if s.len() == 0 || p.len() == 0 {
        s
    } else if starts_with(s, p) {
        r + replace_all(s.skip(p.len() as int), p, r)
    } else {
        seq![s[0]] + replace_all(s.skip(1), p, r)
    }
}

/// Whether the characters from index `i` start with `p`.
pub fn matches_at(cs: &Vec<char>, i: usize, p: &Vec<char>) -> (r: bool)
    requires
        i <= cs@.len(),
    ensures
        r == starts_with(cs@.skip(i as int), p@),
{
    let n = cs.len();
    if p.len() > n - i {
        return false;
    }
    let mut k: usize = 0;
    while k < p.len()
        invariant
            n == cs@.len(),
            i <= cs@.len(),
            k <= p@.len() <= cs@.len() - i,
            forall|q: int| 0 <= q < k ==> cs@[i + q] == p@[q],
        decreases p@.len() - k,
    {
        if cs[i + k] != p[k] {
            assert(cs@.skip(i as int).take(p@.len() as int)[k as int] == cs@[i + k]);
            return false;
        }
        k = k + 1;
    }
    assert(cs@.skip(i as int).take(p@.len() as int) =~= p@);
    true
}

/// The text with every occurrence of `p` replaced by `r`.
pub fn replace_all_of(s: &str, p: &str, r: &str) -> (out: String)
    requires
        p@.len() > 0,
    ensures
        out@ == replace_all(s@, p@, r@),
{
    let cs = chars_of(s);
    let offs = char_offsets(s);
    let pc = chars_of(p);
    let mut out = String::new();
    let mut seg: usize = 0;
    let mut i: usize = 0;
    assert(cs@.skip(0) =~= cs@);
    assert(out@ + cs@.subrange(0, 0) =~= Seq::<char>::empty());
    while i < cs.len()
        invariant
            cs@ == s@,
            pc@ == p@,
            p@.len() > 0,
            offs@.len() == s@.len() + 1,
            forall|k: int| 0 <= k <= s@.len() ==> offs@[k] as int == encode_utf8(s@.take(k)).len(),
            seg <= i <= cs@.len(),
            out@ + cs@.subrange(seg as int, i as int) + replace_all(cs@.skip(i as int), p@, r@)
                == replace_all(s@, p@, r@),
        decreases cs@.len() - i,
    {
        let ghost rest = cs@.skip(i as int);
        if matches_at(&cs, i, &pc) {
            let piece = char_slice(s, &offs, seg, i);
            let ghost before = out@;
            push_str(&mut out, piece);
            push_str(&mut out, r);
            proof {
                assert(rest.skip(p@.len() as int) =~= cs@.skip(i + p@.len()));
                assert(cs@.subrange(i + p@.len(), i + p@.len()) =~= Seq::<char>::empty());
                assert(out@ + cs@.subrange(i + p@.len(), i + p@.len()) =~= before + cs@.subrange(
                    seg as int,
                    i as int,
                ) + r@);
            }
            i = i + pc.len();
            seg = i;
        } else {
            proof {
                assert(rest.skip(1) =~= cs@.skip(i + 1));
                assert(cs@.subrange(seg as int, i as int) + seq![rest[0]] =~= cs@.subrange(
                    seg as int,
                    i + 1,
                ));
            }
            i = i + 1;
        }
    }
    let piece = char_slice(s, &offs, seg, cs.len());
    push_str(&mut out, piece);
    assert(cs@.skip(cs@.len() as int) =~= Seq::<char>::empty());
    out
}

/// The text without leading and trailing white space.
pub fn trim_str(s: &str) -> (r: &str)
    ensures
        r@ == trimmed(s@),
        encode_utf8(r@).len() <= encode_utf8(s@).len(),
{
    let cs = chars_of(s);
    let offs = char_offsets(s);
    let (a, z) = trim_chars(&cs);
    proof {
        lemma_char_range(s@, a as int, z as int);
        lemma_char_range(s@, z as int, z as int);
    }
    char_slice(s, &offs, a, z)
}


/// A character takes at most four bytes.
pub proof fn lemma_encode_len(cs: Seq<char>)
    ensures
        encode_utf8(cs).len() <= 4 * cs.len(),
    decreases cs.len(),
{
    if cs.len() > 0 {
        lemma_encode_len(cs.drop_first());
    }
}


/// The decimal digits of `n`.
pub open spec fn decimal(n: nat) -> Seq<char>
    decreases n,
{
    if n < 10 {
        seq![(('0' as u32) + n) as char]
    } else {
        decimal(n / 10) + seq![(('0' as u32) + n % 10) as char]
    }
}

/// The one-character string of a digit.
pub(crate) fn digit_text(d: usize) -> (r: &'static str)
    requires
        d < 10,
    ensures
        r@ == seq![(('0' as u32) + d) as char],
{
    proof {
        reveal_strlit("0");
        reveal_strlit("1");
        reveal_strlit("2");
        reveal_strlit("3");
        reveal_strlit("4");
        reveal_strlit("5");
        reveal_strlit("6");
        reveal_strlit("7");
        reveal_strlit("8");
        reveal_strlit("9");
    }
    let r = if d == 0 {
        "0"
    } else if d == 1 {
        "1"
    } else if d == 2 {
        "2"
    } else if d == 3 {
        "3"
    } else if d == 4 {
        "4"
    } else if d == 5 {
        "5"
    } else if d == 6 {
        "6"
    } else if d == 7 {
        "7"
    } else if d == 8 {
        "8"
    } else {
        "9"
    };
    assert(r@ =~= seq![(('0' as u32) + d) as char]);
    r
}

/// Appends the decimal digits of `n` to `out`.
pub fn push_decimal(out: &mut String, n: usize)
    ensures
        final(out)@ == old(out)@ + decimal(n as nat),
    decreases n,
{
    if n < 10 {
        push_str(out, digit_text(n));
    } else {
        push_decimal(out, n / 10);
        push_str(out, digit_text(n % 10));
        assert(final(out)@ =~= old(out)@ + decimal(n as nat));
    }
}

/// The index of the first occurrence of `c` at or after `i`.
pub open spec fn find_char_from(cs: Seq<char>, c: char, i: int) -> Option<int>
    decreases cs.len() - i,
{
    if i < 0 || i >= cs.len() {
        None
    } else if cs[i] == c {
        Some(i)
    } else {
        find_char_from(cs, c, i + 1)
    }
}

/// The index of the first occurrence of `c`.
pub open spec fn find_char(cs: Seq<char>, c: char) -> Option<int> {
    find_char_from(cs, c, 0)
}

/// Where the first occurrence of `c` at or after `i` lies.
pub proof fn lemma_find_char(cs: Seq<char>, c: char, i: int)
    requires
        0 <= i,
    ensures
        match find_char_from(cs, c, i) {
            Some(k) => i <= k < cs.len() && cs[k] == c && forall|q: int| i <= q < k ==> cs[q] != c,
            None => forall|q: int| i <= q < cs.len() ==> cs[q] != c,
        },
    decreases cs.len() - i,
{
    if i < cs.len() && cs[i] != c {
        lemma_find_char(cs, c, i + 1);
    }
}

/// The index of the first occurrence of `c`, if any.
pub fn first_char(cs: &Vec<char>, c: char) -> (r: Option<usize>)
    ensures
        match r {
            Some(k) => find_char(cs@, c) == Some(k as int),
            None => find_char(cs@, c) is None,
        },
{
    let mut k: usize = 0;
    while k < cs.len()
        invariant
            k <= cs@.len(),
            find_char(cs@, c) == find_char_from(cs@, c, k as int),
        decreases cs@.len() - k,
    {
        if cs[k] == c {
            return Some(k);
        }
        k = k + 1;
    }
    None
}

/// `p` occurs in the characters.
pub open spec fn contains_seq(cs: Seq<char>, p: Seq<char>) -> bool {
    exists|k: int| 0 <= k <= cs.len() && starts_with(#[trigger] cs.skip(k), p)
}

/// Whether `p` occurs in the characters.
pub fn has_seq(cs: &Vec<char>, p: &Vec<char>) -> (r: bool)
    ensures
        r == contains_seq(cs@, p@),
{
    let mut k: usize = 0;
    while k < cs.len()
        invariant
            k <= cs@.len(),
            forall|q: int| 0 <= q < k ==> !starts_with(#[trigger] cs@.skip(q), p@),
        decreases cs@.len() - k,
    {
        if matches_at(cs, k, p) {
            return true;
        }
        k = k + 1;
    }
    if matches_at(cs, k, p) {
        return true;
    }
    assert forall|q: int| 0 <= q <= cs@.len() implies !starts_with(#[trigger] cs@.skip(q), p@) by {
        if q == k {
        }
    }
    false
}

/// The last index where `p` occurs, if any.
pub open spec fn rfind_seq(cs: Seq<char>, p: Seq<char>) -> Option<int> {
    if contains_seq(cs, p) {
        Some(
            choose|k: int|
                0 <= k <= cs.len() && starts_with(cs.skip(k), p) && forall|q: int|
                    k < q <= cs.len() ==> !starts_with(#[trigger] cs.skip(q), p),
        )
    } else {
        None
    }
}

/// The last index where `p` occurs, if any.
pub fn last_seq(cs: &Vec<char>, p: &Vec<char>) -> (r: Option<usize>)
    ensures
        r is Some <==> rfind_seq(cs@, p@) is Some,
        r matches Some(k) ==> rfind_seq(cs@, p@) == Some(k as int) && k <= cs@.len() && starts_with(
            cs@.skip(k as int),
            p@,
        ),
{
    let mut k: usize = cs.len();
    loop
        invariant
            k <= cs@.len(),
            forall|q: int| k < q <= cs@.len() ==> !starts_with(#[trigger] cs@.skip(q), p@),
        decreases k,
    {
        if matches_at(cs, k, p) {
            proof {
                let w = choose|j: int|
                    0 <= j <= cs@.len() && starts_with(cs@.skip(j), p@) && forall|q: int|
                        j < q <= cs@.len() ==> !starts_with(#[trigger] cs@.skip(q), p@);
                assert(contains_seq(cs@, p@));
                assert(w == k as int) by {
                    if w < k {
                        assert(!starts_with(cs@.skip(k as int), p@));
                    } else if w > k {
                    }
                }
            }
            return Some(k);
        }
        if k == 0 {
            assert forall|q: int| 0 <= q <= cs@.len() implies !starts_with(#[trigger] cs@.skip(q), p@) by {}
            return None;
        }
        k = k - 1;
    }
}

/// The pieces of `cs[start..]` between commas, scanning from `i`.
pub open spec fn split_from(cs: Seq<char>, start: int, i: int) -> Seq<Seq<char>>
    decreases cs.len() - i,
{
    if i < 0 || i >= cs.len() {
        seq![cs.subrange(start, cs.len() as int)]
    } else if cs[i] == ',' {
        seq![cs.subrange(start, i)] + split_from(cs, i + 1, i + 1)
    } else {
        split_from(cs, start, i + 1)
    }
}

/// The pieces of a text between commas, as `str::split(',')` yields them.
pub open spec fn split_commas(cs: Seq<char>) -> Seq<Seq<char>> {
    split_from(cs, 0, 0)
}

/// The pieces of a text between commas, as character index ranges.
pub fn comma_pieces(cs: &Vec<char>) -> (r: Vec<(usize, usize)>)
    ensures
        r@.len() == split_commas(cs@).len(),
        forall|k: int| 0 <= k < r@.len() ==> (#[trigger] r@[k]).0 <= r@[k].1 <= cs@.len(),
        forall|k: int|
            0 <= k < r@.len() ==> cs@.subrange(r@[k].0 as int, r@[k].1 as int)
                == #[trigger] split_commas(cs@)[k],
{
    let mut out: Vec<(usize, usize)> = Vec::new();
    let mut start: usize = 0;
    let mut i: usize = 0;
    while i < cs.len()
        invariant
            start <= i <= cs@.len(),
            forall|k: int| 0 <= k < out@.len() ==> (#[trigger] out@[k]).0 <= out@[k].1 <= start,
            split_commas(cs@) == Seq::new(
                out@.len(),
                |k: int| cs@.subrange(out@[k].0 as int, out@[k].1 as int),
            ) + split_from(cs@, start as int, i as int),
        decreases cs@.len() - i,
    {
        if cs[i] == ',' {
            let ghost prev = out@;
            out.push((start, i));
            assert(forall|k: int| 0 <= k < prev.len() ==> out@[k] == prev[k]);
            assert(Seq::new(out@.len(), |k: int| cs@.subrange(out@[k].0 as int, out@[k].1 as int))
                =~= Seq::new(prev.len(), |k: int| cs@.subrange(prev[k].0 as int, prev[k].1 as int)).push(
                cs@.subrange(start as int, i as int),
            ));
            start = i + 1;
        }
        i = i + 1;
    }
    let ghost prev = out@;
    out.push((start, cs.len()));
    let ghost whole = Seq::new(out@.len(), |k: int| cs@.subrange(out@[k].0 as int, out@[k].1 as int));
    assert(whole =~= Seq::new(
        prev.len(),
        |k: int| cs@.subrange(prev[k].0 as int, prev[k].1 as int),
    ).push(cs@.subrange(start as int, cs@.len() as int)));
    assert(split_commas(cs@) == whole);
    assert forall|k: int| 0 <= k < out@.len() implies cs@.subrange(
        out@[k].0 as int,
        out@[k].1 as int,
    ) == #[trigger] split_commas(cs@)[k] by {
        assert(whole[k] == cs@.subrange(out@[k].0 as int, out@[k].1 as int));
    }
    out
}

/// The texts joined with `sep` between them.
pub open spec fn join_with(ss: Seq<Seq<char>>, sep: Seq<char>) -> Seq<char>
    decreases ss.len(),
{
    if ss.len() == 0 {
        seq![]
    } else if ss.len() == 1 {
        ss[0]
    } else {
        join_with(ss.drop_last(), sep) + sep + ss.last()
    }
}

} // verus!
