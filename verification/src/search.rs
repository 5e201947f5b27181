//! Case-insensitive find and replace over UTF-8 text.
//!
//! Matching is done on the lowercased text, as `str` searching does it: a
//! match is a run of bytes equal to the pattern that starts at a character
//! boundary, and successive matches do not overlap.
use vstd::prelude::*;
use vstd::utf8::*;
use vstd::string::*;
use crate::text::{lemma_encode_concat, push_str};

verus! {

broadcast use vstd::utf8::group_utf8_lib;

/// What `str::to_lowercase` gives for a character sequence.
pub uninterp spec fn lowercase(s: Seq<char>) -> Seq<char>;

/// Lowercases a string slice with `str::to_lowercase`.
#[verifier::external_body]
pub(crate) fn to_lower(s: &str) -> (r: String)
    ensures
        r@ == lowercase(s@),
{
    s.to_lowercase()
}

/// `p` occurs in `h` at byte `i`.
pub open spec fn occurs_at(h: Seq<u8>, p: Seq<u8>, i: int) -> bool {
    0 <= i && i + p.len() <= h.len() && h.subrange(i, i + p.len()) == p
}

/// `p` matches `h` at byte `i`, which is a character boundary.
pub open spec fn match_at(h: Seq<u8>, p: Seq<u8>, i: int) -> bool {
    occurs_at(h, p, i) && is_char_boundary(h, i)
}

/// The first match of `p` in `h` at or after byte `from`, or -1.
pub open spec fn next_match(h: Seq<u8>, p: Seq<u8>, from: int) -> int
    decreases h.len() + 1 - from,
{
    if from < 0 || from > h.len() {
        -1
    } else if match_at(h, p, from) {
        from
    } else {
        next_match(h, p, from + 1)
    }
}

/// Where searching resumes after a match at `m`.
pub open spec fn resume(p: Seq<u8>, m: int) -> int {
    if p.len() == 0 { m + 1 } else { m + p.len() }
}

/// The non-overlapping matches of `p` in `h` from byte `from` on, left to right.
pub open spec fn matches_from(h: Seq<u8>, p: Seq<u8>, from: int) -> Seq<int>
    decreases h.len() + 1 - from,
{
    let m = next_match(h, p, from);
    if m < 0 || from < 0 {
        seq![]
    } else {
        proof {
            lemma_next_match(h, p, from);
        }
        seq![m] + matches_from(h, p, resume(p, m))
    }
}

pub proof fn lemma_next_match(h: Seq<u8>, p: Seq<u8>, from: int)
    ensures
        next_match(h, p, from) == -1 || (from <= next_match(h, p, from) <= h.len() && match_at(
            h,
            p,
            next_match(h, p, from),
        )),
        from >= 0 ==> forall|k: int| from <= k && (next_match(h, p, from) == -1 || k < next_match(h, p, from)) ==> !#[trigger] match_at(h, p, k),
    decreases h.len() + 1 - from,
{
    if !(from < 0 || from > h.len()) && !match_at(h, p, from) {
        lemma_next_match(h, p, from + 1);
    }
}

proof fn lemma_no_match_past(h: Seq<u8>, p: Seq<u8>, from: int)
    requires
        from >= 0,
        from + p.len() > h.len(),
    ensures
        next_match(h, p, from) == -1,
    decreases h.len() + 1 - from,
{
    if from <= h.len() {
        lemma_no_match_past(h, p, from + 1);
    }
}

/// `h[i..i + p.len()] == p`, for `i + p.len() <= h.len()`.
fn bytes_eq_at(h: &[u8], p: &[u8], i: usize) -> (r: bool)
    requires
        i + p@.len() <= h@.len(),
    ensures
        r == (h@.subrange(i as int, i + p@.len()) == p@),
{
    let hl = h.len();
    let mut k: usize = 0;
    while k < p.len()
        invariant
            hl == h@.len(),
            i + p@.len() <= h@.len(),
            k <= p@.len(),
            forall|t: int| 0 <= t < k ==> h@[i + t] == p@[t],
        decreases p@.len() - k,
    {
        if h[i + k] != p[k] {
            proof {
                assert(h@.subrange(i as int, i + p@.len())[k as int] != p@[k as int]);
            }
            return false;
        }
        k += 1;
    }
    proof {
        assert(h@.subrange(i as int, i + p@.len()) =~= p@);
    }
    true
}

/// The first match of `pat` in `hay` at or after byte `from`.
pub fn find_match(hay: &str, pat: &str, from: usize) -> (r: Option<usize>)
    ensures
        match r {
            Some(m) => m as int == next_match(hay.spec_bytes(), pat.spec_bytes(), from as int),
            None => next_match(hay.spec_bytes(), pat.spec_bytes(), from as int) == -1,
        },
{
    let h = hay.as_bytes();
    let p = pat.as_bytes();
    let hlen = h.len();
    let plen = p.len();
    if plen > hlen {
        proof {
            lemma_no_match_past(h@, p@, from as int);
        }
        return None;
    }
    let last = hlen - plen;
    if from > last {
        proof {
            lemma_no_match_past(h@, p@, from as int);
        }
        return None;
    }
    let mut i = from;
    loop
        invariant
            h@ == hay.spec_bytes(),
            p@ == pat.spec_bytes(),
            hlen == h@.len(),
            plen == p@.len(),
            last == hlen - plen,
            from <= i <= last,
            next_match(h@, p@, i as int) == next_match(h@, p@, from as int),
        decreases last - i,
    {
        if hay.is_char_boundary(i) && bytes_eq_at(h, p, i) {
            return Some(i);
        }
        if i == last {
            proof {
                lemma_no_match_past(h@, p@, i + 1);
            }
            return None;
        }
        i += 1;
    }
}

proof fn lemma_matches_past_end(h: Seq<u8>, p: Seq<u8>, from: int)
    requires
        from > h.len(),
    ensures
        matches_from(h, p, from).len() == 0,
{
}

/// The number of non-overlapping matches of `pat` in `hay`, as
/// `hay.matches(pat).count()` gives it; a count that does not fit in `usize`
/// is given as `usize::MAX`.
pub fn count_matches(hay: &str, pat: &str) -> (n: usize)
    ensures
        n as int == if matches_from(hay.spec_bytes(), pat.spec_bytes(), 0).len() <= usize::MAX {
            matches_from(hay.spec_bytes(), pat.spec_bytes(), 0).len() as int
        } else {
            usize::MAX as int
        },
{
    let hlen = hay.as_bytes().len();
    let plen = pat.as_bytes().len();
    let mut from: usize = 0;
    let mut n: usize = 0;
    let ghost h = hay.spec_bytes();
    let ghost p = pat.spec_bytes();
    loop
        invariant
            h == hay.spec_bytes(),
            p == pat.spec_bytes(),
            hlen == h.len(),
            plen == p.len(),
            from <= hlen,
            n + matches_from(h, p, from as int).len() == matches_from(h, p, 0).len(),
        decreases hlen + 1 - from,
    {
        match find_match(hay, pat, from) {
            Some(m) => {
                proof {
                    lemma_next_match(h, p, from as int);
                }
                if n == usize::MAX {
                    return n;
                }
                n += 1;
                if plen == 0 {
                    if m == hlen {
                        proof {
                            lemma_matches_past_end(h, p, m + 1);
                        }
                        return n;
                    }
                    from = m + 1;
                } else {
                    from = m + plen;
                }
            },
            None => {
                return n;
            },
        }
    }
}

/// `a..b` is a byte range of `t` whose ends are character boundaries.
pub open spec fn fits(t: Seq<u8>, a: int, b: int) -> bool {
    0 <= a <= b <= t.len() && is_char_boundary(t, a) && is_char_boundary(t, b)
}

proof fn lemma_boundary_shift(t: Seq<u8>, a: int, b: int)
    requires
        valid_utf8(t),
        fits(t, a, b),
    ensures
        valid_utf8(t.subrange(a, t.len() as int)),
        is_char_boundary(t.subrange(a, t.len() as int), b - a),
{
    let r = t.subrange(a, t.len() as int);
    valid_utf8_split(t, a);
    if b - a == r.len() {
        is_char_boundary_start_end_of_seq(r);
    } else if b - a == 0 {
        is_char_boundary_start_end_of_seq(r);
    } else {
        is_char_boundary_iff_not_is_continuation_byte(t, b);
        is_char_boundary_iff_not_is_continuation_byte(r, b - a);
        assert(r[b - a] == t[b]);
    }
}

/// The bytes `text[a..b]` as a string slice.
pub fn substr(text: &str, a: usize, b: usize) -> (r: &str)
    requires
        fits(text.spec_bytes(), a as int, b as int),
    ensures
        r.spec_bytes() == text.spec_bytes().subrange(a as int, b as int),
{
    proof {
        encode_utf8_valid_utf8(text@);
        lemma_boundary_shift(text.spec_bytes(), a as int, b as int);
    }
    let (_, rest) = text.split_at(a);
    let (mid, _) = rest.split_at(b - a);
    proof {
        assert(mid.spec_bytes() =~= text.spec_bytes().subrange(a as int, b as int));
    }
    mid
}

/// `text` with the bytes `start..end` replaced by `rep`.
pub fn splice(text: &str, start: usize, end: usize, rep: &str) -> (r: String)
    requires
        fits(text.spec_bytes(), start as int, end as int),
    ensures
        encode_utf8(r@) == text.spec_bytes().subrange(0, start as int) + rep.spec_bytes()
            + text.spec_bytes().subrange(end as int, text.spec_bytes().len() as int),
{
    let len = text.as_bytes().len();
    proof {
        encode_utf8_valid_utf8(text@);
        is_char_boundary_start_end_of_seq(text.spec_bytes());
    }
    let head = substr(text, 0, start);
    let tail = substr(text, end, len);
    let mut r = String::new();
    push_str(&mut r, head);
    push_str(&mut r, rep);
    push_str(&mut r, tail);
    proof {
        lemma_encode_concat(head@, rep@);
        lemma_encode_concat(head@ + rep@, tail@);
        assert(r@ == head@ + rep@ + tail@);
    }
    r
}

/// The text `t[last..]` with `r` put in place of the `flen` bytes at each of
/// the positions `ms`; `None` when some piece `t[last..m]`, or the final
/// `t[last..]`, is not a range between character boundaries (where slicing
/// the text fails).
pub open spec fn splice_all(t: Seq<u8>, ms: Seq<int>, last: int, flen: int, r: Seq<u8>) -> Option<
    Seq<u8>,
>
    decreases ms.len(),
{
    if ms.len() == 0 {
        if fits(t, last, t.len() as int) {
            Some(t.subrange(last, t.len() as int))
        } else {
            None
        }
    } else if fits(t, last, ms[0]) {
        match splice_all(t, ms.drop_first(), ms[0] + flen, flen, r) {
            Some(rest) => Some(t.subrange(last, ms[0]) + r + rest),
            None => None,
        }
    } else {
        None
    }
}

proof fn lemma_prepend_assoc(a: Seq<u8>, b: Seq<u8>, o: Option<Seq<u8>>)
    ensures
        prepend(a, prepend(b, o)) == prepend(a + b, o),
{
    match o {
        Some(x) => {
            assert(a + (b + x) =~= (a + b) + x);
        },
        None => {},
    }
}

proof fn lemma_splice_past_end(t: Seq<u8>, ms: Seq<int>, last: int, flen: int, r: Seq<u8>)
    requires
        last > t.len(),
    ensures
        splice_all(t, ms, last, flen, r) is None,
{
}

/// Prepends `acc` to an optional result.
pub open spec fn prepend(acc: Seq<u8>, o: Option<Seq<u8>>) -> Option<Seq<u8>> {
    match o {
        Some(x) => Some(acc + x),
        None => None,
    }
}

/// Replaces every match of `pat` in `lower` (the lowercased `text`) by `rep`,
/// each match standing for `find_len` bytes of `text` at the same offset.
/// `None` when one of the pieces of `text` to keep does not lie between
/// character boundaries.
pub fn replace_all_text(text: &str, lower: &str, pat: &str, find_len: usize, rep: &str) -> (r:
    Option<String>)
    ensures
        match r {
            Some(s) => splice_all(
                text.spec_bytes(),
                matches_from(lower.spec_bytes(), pat.spec_bytes(), 0),
                0,
                find_len as int,
                rep.spec_bytes(),
            ) == Some(encode_utf8(s@)),
            None => splice_all(
                text.spec_bytes(),
                matches_from(lower.spec_bytes(), pat.spec_bytes(), 0),
                0,
                find_len as int,
                rep.spec_bytes(),
            ) is None,
        },
{
    let t = text.as_bytes();
    let tlen = t.len();
    let llen = lower.as_bytes().len();
    let plen = pat.as_bytes().len();
    let ghost tb = text.spec_bytes();
    let ghost l = lower.spec_bytes();
    let ghost p = pat.spec_bytes();
    let ghost rb = rep.spec_bytes();
    let ghost whole = splice_all(tb, matches_from(l, p, 0), 0, find_len as int, rb);
    let mut out = String::new();
    let mut last: usize = 0;
    let mut from: usize = 0;
    proof {
        assert(encode_utf8(out@) =~= Seq::<u8>::empty());
        assert(prepend(Seq::<u8>::empty(), whole) =~= whole) by {
            match whole {
                Some(x) => {
                    assert(Seq::<u8>::empty() + x =~= x);
                },
                None => {},
            }
        }
        encode_utf8_valid_utf8(text@);
    }
    loop
        invariant
            t@ == tb,
            tb == text.spec_bytes(),
            tlen == tb.len(),
            l == lower.spec_bytes(),
            llen == l.len(),
            p == pat.spec_bytes(),
            plen == p.len(),
            rb == rep.spec_bytes(),
            valid_utf8(tb),
            from <= llen,
            whole == splice_all(tb, matches_from(l, p, 0), 0, find_len as int, rb),
            prepend(encode_utf8(out@), splice_all(tb, matches_from(l, p, from as int), last as int, find_len as int, rb)) == whole,
        decreases llen + 1 - from,
    {
        let ghost ms = matches_from(l, p, from as int);
        match find_match(lower, pat, from) {
            Some(m) => {
                proof {
                    lemma_next_match(l, p, from as int);
                    assert(ms[0] == m);
                    assert(ms.drop_first() =~= matches_from(l, p, resume(p, m as int)));
                }
                if last <= m && m <= tlen && text.is_char_boundary(last) && text.is_char_boundary(m) {
                    let piece = substr(text, last, m);
                    let ghost before = out@;
                    push_str(&mut out, piece);
                    push_str(&mut out, rep);
                    proof {
                        lemma_encode_concat(before, piece@);
                        lemma_encode_concat(before + piece@, rep@);
                        assert(out@ == before + piece@ + rep@);
                        lemma_prepend_assoc(
                            encode_utf8(before),
                            tb.subrange(last as int, m as int) + rb,
                            splice_all(tb, ms.drop_first(), m + find_len, find_len as int, rb),
                        );
                        assert(encode_utf8(before) + (tb.subrange(last as int, m as int) + rb)
                            =~= encode_utf8(out@));
                    }
                    if find_len > tlen - m {
                        proof {
                            lemma_splice_past_end(tb, ms.drop_first(), m + find_len, find_len as int, rb);
                        }
                        return None;
                    }
                    last = m + find_len;
                    if plen == 0 && m == llen {
                        proof {
                            lemma_matches_past_end(l, p, m + 1);
                        }
                        if last <= tlen && text.is_char_boundary(last) {
                            let piece = substr(text, last, tlen);
                            let ghost before2 = out@;
                            push_str(&mut out, piece);
                            proof {
                                lemma_encode_concat(before2, piece@);
                            }
                            return Some(out);
                        } else {
                            return None;
                        }
                    }
                    from = if plen == 0 { m + 1 } else { m + plen };
                } else {
                    return None;
                }
            },
            None => {
                proof {
                    assert(ms.len() == 0);
                }
                if last <= tlen && text.is_char_boundary(last) {
                    let piece = substr(text, last, tlen);
                    let ghost before = out@;
                    push_str(&mut out, piece);
                    proof {
                        lemma_encode_concat(before, piece@);
                    }
                    return Some(out);
                } else {
                    return None;
                }
            },
        }
    }
}

} // verus!
