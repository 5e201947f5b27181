//! Text primitives shared by the editor: UTF-8 byte positions, character
//! sequences, and the cursor-region helpers used by focus mode.
use vstd::prelude::*;
use vstd::utf8::*;
use vstd::string::*;

verus! {

broadcast use vstd::utf8::group_utf8_lib;

/// The UTF-8 bytes of a character sequence.
pub open spec fn bytes_of(s: Seq<char>) -> Seq<u8> {
    encode_utf8(s)
}

/// Encoding distributes over concatenation.
pub proof fn lemma_encode_concat(a: Seq<char>, b: Seq<char>)
    ensures
        encode_utf8(a + b) == encode_utf8(a) + encode_utf8(b),
    decreases a.len(),
{
    if a.len() == 0 {
        assert(a + b =~= b);
    } else {
        lemma_encode_concat(a.drop_first(), b);
        assert((a + b).drop_first() =~= a.drop_first() + b);
        assert((a + b)[0] == a[0]);
    }
}

/// Encoding a prefix one character longer appends that character's bytes.
pub proof fn lemma_encode_take_push(s: Seq<char>, i: int)
    requires
        0 <= i < s.len(),
    ensures
        encode_utf8(s.take(i + 1)) == encode_utf8(s.take(i)) + encode_scalar(s[i] as u32),
{
    assert(s.take(i + 1) =~= s.take(i) + seq![s[i]]);
    lemma_encode_concat(s.take(i), seq![s[i]]);
    assert(seq![s[i]].drop_first() =~= Seq::<char>::empty());
    assert(encode_utf8(Seq::<char>::empty()) =~= Seq::<u8>::empty());
    assert(encode_scalar(s[i] as u32) + Seq::<u8>::empty() =~= encode_scalar(s[i] as u32));
}

/// The encoding of a sequence is at least as long as the sequence.
pub proof fn lemma_encode_len(s: Seq<char>)
    ensures
        encode_utf8(s).len() >= s.len(),
    decreases s.len(),
{
    if s.len() > 0 {
        lemma_encode_len(s.drop_first());
    }
}

/// Appends one character to a string.
#[verifier::external_body]
pub(crate) fn push_char(s: &mut String, c: char)
    ensures
        final(s)@ == old(s)@.push(c),
{
    s.push(c);
}

/// Appends a string slice to a string.
pub(crate) fn push_str(s: &mut String, t: &str)
    ensures
        final(s)@ == old(s)@ + t@,
{
    s.append(t);
}

/// The characters of a string slice, in order.
pub fn chars_of(s: &str) -> (v: Vec<char>)
    ensures
        v@ == s@,
{
    let mut v: Vec<char> = Vec::new();
    for c in it: s.chars()
        invariant
            v@ == it.seq().take(it.index() as int),
    {
        v.push(c);
    }
    v
}

/// Builds a string from the characters `v[from..to]`.
pub fn string_from_chars(v: &Vec<char>, from: usize, to: usize) -> (s: String)
    requires
        from <= to <= v.len(),
    ensures
        s@ == v@.subrange(from as int, to as int),
{
    let mut s = String::new();
    let mut i = from;
    while i < to
        invariant
            from <= i <= to <= v.len(),
            s@ == v@.subrange(from as int, i as int),
        decreases to - i,
    {
        push_char(&mut s, v[i]);
        i += 1;
        assert(s@ =~= v@.subrange(from as int, i as int));
    }
    s
}

/// Number of bytes of the UTF-8 encoding of `c`.
pub fn utf8_len(c: char) -> (n: usize)
    ensures
        n == encode_scalar(c as u32).len(),
{
    let u = c as u32;
    if u <= 0x7F {
        1
    } else if u <= 0x7FF {
        2
    } else if u <= 0xFFFF {
        3
    } else {
        4
    }
}

/// Whether byte `i` of `text` starts a character (or is its end).
pub open spec fn boundary(text: &str, i: int) -> bool {
    is_char_boundary(text.spec_bytes(), i)
}

/// The largest character boundary of `b` that is at most `i`.
pub open spec fn floor_boundary(b: Seq<u8>, i: int) -> int
    decreases i,
{
    if i <= 0 {
        0
    } else if is_char_boundary(b, i) {
        i
    } else {
        floor_boundary(b, i - 1)
    }
}

/// The position a byte offset designates in `text`: clamped to the text and
/// moved back to the nearest character boundary.
pub open spec fn safe_pos(text: &str, pos: int) -> int {
    let len = text.spec_bytes().len() as int;
    floor_boundary(text.spec_bytes(), if pos < len { pos } else { len })
}

/// The floor boundary is a boundary at or below the position (for any
/// position past zero), and moving to it twice is moving to it once.
proof fn lemma_floor_boundary(b: Seq<u8>, i: int)
    requires
        is_char_boundary(b, 0),
    ensures
        0 <= floor_boundary(b, i),
        i >= 0 ==> floor_boundary(b, i) <= i,
        is_char_boundary(b, floor_boundary(b, i)),
        floor_boundary(b, floor_boundary(b, i)) == floor_boundary(b, i),
    decreases i,
{
    if i > 0 && !is_char_boundary(b, i) {
        lemma_floor_boundary(b, i - 1);
    }
}

/// Moving a position to a character boundary twice is moving it once.
pub proof fn lemma_safe_pos_idempotent(text: &str, pos: int)
    ensures
        safe_pos(text, safe_pos(text, pos)) == safe_pos(text, pos),
{
    let b = text.spec_bytes();
    encode_utf8_valid_utf8(text@);
    is_char_boundary_start_end_of_seq(b);
    let len = b.len() as int;
    let m = if pos < len { pos } else { len };
    lemma_floor_boundary(b, m);
}

/// Clamps `pos` to the text and moves it back to the nearest character boundary.
pub fn safe_byte_pos(text: &str, pos: usize) -> (r: usize)
    ensures
        r == safe_pos(text, pos as int),
        r <= pos,
        r <= text.spec_bytes().len(),
        boundary(text, r as int),
        forall|j: int|
            r < j <= pos && j <= text.spec_bytes().len() ==> !#[trigger] boundary(text, j),
{
    let len = text.as_bytes().len();
    let m = if pos < len { pos } else { len };
    let mut i = m;
    proof {
        encode_utf8_valid_utf8(text@);
        is_char_boundary_start_end_of_seq(text.spec_bytes());
    }
    while !text.is_char_boundary(i)
        invariant
            i <= m <= pos,
            m <= text.spec_bytes().len(),
            len == text.spec_bytes().len(),
            m == if pos < len { pos } else { len },
            boundary(text, 0),
            floor_boundary(text.spec_bytes(), i as int) == floor_boundary(text.spec_bytes(), m as int),
            forall|j: int| i < j <= pos && j <= len ==> !#[trigger] boundary(text, j),
        decreases i,
    {
        i -= 1;
    }
    i
}

/// Byte offset of the character with index `char_idx`, or the byte length of
/// the text when there are not that many characters.
pub fn char_to_byte(text: &str, char_idx: usize) -> (r: usize)
    ensures
        char_idx < text@.len() ==> r == encode_utf8(text@.take(char_idx as int)).len(),
        char_idx >= text@.len() ==> r == text.spec_bytes().len(),
        r == char_offset(text, char_idx as int),
{
    let cs = chars_of(text);
    let blen = text.as_bytes().len();
    let n = cs.len();
    let mut i: usize = 0;
    let mut b: usize = 0;
    proof {
        assert(text@.take(0) =~= Seq::<char>::empty());
        lemma_encode_len(text@);
    }
    while i < n && i < char_idx
        invariant
            cs@ == text@,
            n == text@.len(),
            i <= n,
            i <= char_idx,
            b == encode_utf8(text@.take(i as int)).len(),
            encode_utf8(text@).len() == text.spec_bytes().len(),
            text.spec_bytes().len() == blen,
        decreases n - i,
    {
        proof {
            lemma_encode_take_push(text@, i as int);
            lemma_encode_concat(text@.take(i + 1), text@.skip(i + 1));
            assert(text@.take(i + 1) + text@.skip(i + 1) =~= text@);
        }
        b = b + utf8_len(cs[i]);
        i += 1;
    }
    if i >= n {
        proof {
            assert(text@.take(n as int) =~= text@);
        }
        blen
    } else {
        b
    }
}

/// The byte offset `char_to_byte` gives for character index `i`.
pub open spec fn char_offset(text: &str, i: int) -> int {
    if 0 <= i < text@.len() {
        encode_utf8(text@.take(i)).len() as int
    } else {
        text.spec_bytes().len() as int
    }
}

/// The end of every prefix of whole characters is a character boundary.
proof fn lemma_prefix_boundary(s: Seq<char>, i: int)
    requires
        0 <= i <= s.len(),
    ensures
        is_char_boundary(encode_utf8(s), encode_utf8(s.take(i)).len() as int),
    decreases i,
{
    if i == 0 {
        assert(s.take(0) =~= Seq::<char>::empty());
    } else {
        let bytes = encode_utf8(s);
        let rest = s.drop_first();
        encode_utf8_first_scalar(s);
        encode_utf8_valid_utf8(s);
        assert(pop_first_scalar(bytes) =~= encode_utf8(rest));
        lemma_prefix_boundary(rest, i - 1);
        assert(s.take(i).drop_first() =~= rest.take(i - 1));
        assert(s.take(i)[0] == s[0]);
        lemma_encode_concat(s.take(i), s.skip(i));
        assert(s.take(i) + s.skip(i) =~= s);
    }
}

/// Character offsets are where characters start: each is a character
/// boundary, so `safe_byte_pos` leaves it where it is, and a later
/// character never starts before an earlier one.
pub proof fn lemma_char_offsets(text: &str, i: int, j: int)
    requires
        0 <= i <= j,
    ensures
        boundary(text, char_offset(text, i)),
        safe_pos(text, char_offset(text, i)) == char_offset(text, i),
        char_offset(text, i) <= char_offset(text, j),
{
    let s = text@;
    let b = text.spec_bytes();
    encode_utf8_valid_utf8(s);
    is_char_boundary_start_end_of_seq(b);
    let ii = if i < s.len() { i } else { s.len() as int };
    let jj = if j < s.len() { j } else { s.len() as int };
    assert(s.take(s.len() as int) =~= s);
    lemma_prefix_boundary(s, ii);
    lemma_encode_concat(s.take(ii), s.subrange(ii, jj));
    assert(s.take(ii) + s.subrange(ii, jj) =~= s.take(jj));
    lemma_encode_concat(s.take(jj), s.skip(jj));
    assert(s.take(jj) + s.skip(jj) =~= s);
    assert(char_offset(text, i) == encode_utf8(s.take(ii)).len());
    assert(char_offset(text, j) == encode_utf8(s.take(jj)).len());
    let o = char_offset(text, i);
    assert(o <= b.len());
    assert(floor_boundary(b, o) == o);
}

/// No newline byte lies in `b[from..to]`.
pub open spec fn no_newline(b: Seq<u8>, from: int, to: int) -> bool {
    forall|k: int| from <= k < to ==> b[k] != 10u8
}

/// `start..end` is the line holding byte `pos` (after moving it back to a
/// character boundary): `start` follows the previous newline and `end` is
/// the next newline or the end of the text.
pub open spec fn line_bounds(text: &str, pos: int, start: int, end: int) -> bool {
    let b = text.spec_bytes();
    let p = safe_pos(text, pos);
    &&& 0 <= start <= p <= end <= b.len()
    &&& (start == 0 || b[start - 1] == 10u8)
    &&& no_newline(b, start, p)
    &&& (end == b.len() || b[end] == 10u8)
    &&& no_newline(b, p, end)
}

/// Bounds `(start, end)` of the line holding byte `byte_pos` (after moving it
/// back to a character boundary): `start` follows the previous newline and
/// `end` is the next newline or the end of the text.
pub fn find_line_bounds(text: &str, byte_pos: usize) -> (r: (usize, usize))
    ensures
        line_bounds(text, byte_pos as int, r.0 as int, r.1 as int),
{
    let pos = safe_byte_pos(text, byte_pos);
    let bytes = text.as_bytes();
    let len = bytes.len();
    let mut start = pos;
    while start > 0 && bytes[start - 1] != 10u8
        invariant
            bytes@ == text.spec_bytes(),
            len == bytes@.len(),
            start <= pos <= len,
            no_newline(bytes@, start as int, pos as int),
        decreases start,
    {
        start -= 1;
    }
    let mut end = pos;
    while end < len && bytes[end] != 10u8
        invariant
            bytes@ == text.spec_bytes(),
            len == bytes@.len(),
            pos <= end <= len,
            no_newline(bytes@, pos as int, end as int),
        decreases len - end,
    {
        end += 1;
    }
    (start, end)
}

/// The paragraph holding a position encloses the line holding it.
pub proof fn lemma_paragraph_encloses_line(text: &str, pos: int, ls: int, le: int, ps: int, pe: int)
    requires
        line_bounds(text, pos, ls, le),
        para_bounds(text, pos, ps, pe),
    ensures
        ps <= ls,
        le <= pe,
{
    let b = text.spec_bytes();
    if ps > ls {
        assert(ps != 0);
        assert(blank_at(b, ps - 2));
        assert(b[ps - 1] == 10u8);
        assert(ls <= ps - 1 < safe_pos(text, pos));
    }
    if pe < le {
        assert(blank_at(b, pe));
        assert(b[pe] == 10u8);
    }
}

/// A blank-line separator (two newline bytes) starts at byte `i`.
pub open spec fn blank_at(b: Seq<u8>, i: int) -> bool {
    0 <= i && i + 1 < b.len() && b[i] == 10u8 && b[i + 1] == 10u8
}

/// `start..end` is the paragraph holding byte `pos` (after moving it back
/// to a character boundary): `start` follows the last blank-line separator
/// that ends at or before the position, `end` is the first separator at or
/// after it, or the end of the text.
pub open spec fn para_bounds(text: &str, pos: int, start: int, end: int) -> bool {
    let b = text.spec_bytes();
    let p = safe_pos(text, pos);
    &&& 0 <= start <= p <= end <= b.len()
    &&& (start == 0 || blank_at(b, start - 2))
    &&& forall|i: int| start - 2 < i && i + 2 <= p ==> !#[trigger] blank_at(b, i)
    &&& (end == b.len() || blank_at(b, end))
    &&& forall|i: int| p <= i < end ==> !#[trigger] blank_at(b, i)
    &&& end == b.len() ==> forall|i: int| p <= i ==> !#[trigger] blank_at(b, i)
}

/// Bounds `(start, end)` of the paragraph holding byte `byte_pos` (after moving
/// it back to a character boundary). Paragraphs are separated by two
/// consecutive newlines: `start` follows the last separator that ends at or
/// before the position, `end` is the first separator at or after it.
pub fn find_para_bounds(text: &str, byte_pos: usize) -> (r: (usize, usize))
    ensures
        para_bounds(text, byte_pos as int, r.0 as int, r.1 as int),
{
    let pos = safe_byte_pos(text, byte_pos);
    let bytes = text.as_bytes();
    let len = bytes.len();
    // last separator lying entirely before `pos`
    let mut k = pos;
    while k >= 2 && !(bytes[k - 2] == 10u8 && bytes[k - 1] == 10u8)
        invariant
            bytes@ == text.spec_bytes(),
            len == bytes@.len(),
            k <= pos <= len,
            forall|i: int| k - 2 < i && i + 2 <= pos ==> !#[trigger] blank_at(bytes@, i),
        decreases k,
    {
        k -= 1;
    }
    let start = if k >= 2 { k } else { 0 };
    // first separator at or after `pos`
    let mut e = pos;
    while len > 0 && e < len - 1 && !(bytes[e] == 10u8 && bytes[e + 1] == 10u8)
        invariant
            bytes@ == text.spec_bytes(),
            len == bytes@.len(),
            pos <= e <= len,
            forall|i: int| pos <= i < e ==> !#[trigger] blank_at(bytes@, i),
        decreases len - e,
    {
        e += 1;
    }
    let end = if len > 0 && e < len - 1 { e } else { len };
    (start, end)
}

} // verus!
