//! Document statistics: words, characters, lines, sentences, paragraphs,
//! pages, and the Markdown heading outline.
use vstd::prelude::*;
use crate::text::{chars_of, string_from_chars, lemma_encode_take_push, lemma_encode_len};
use crate::markdown::{char_close, lemma_char_close};
use vstd::utf8::*;

verus! {

/// `char::is_whitespace`: the Unicode `White_Space` property.
pub open spec fn is_ws(c: char) -> bool {
    let u = c as u32;
    ||| 0x09 <= u <= 0x0D
    ||| u == 0x20
    ||| u == 0x85
    ||| u == 0xA0
    ||| u == 0x1680
    ||| 0x2000 <= u <= 0x200A
    ||| u == 0x2028
    ||| u == 0x2029
    ||| u == 0x202F
    ||| u == 0x205F
    ||| u == 0x3000
}

/// Whether `c` is whitespace, as `char::is_whitespace` decides it.
pub fn is_whitespace(c: char) -> (r: bool)
    ensures
        r == is_ws(c),
{
    let u = c as u32;
    (0x09 <= u && u <= 0x0D) || u == 0x20 || u == 0x85 || u == 0xA0 || u == 0x1680 || (0x2000
        <= u && u <= 0x200A) || u == 0x2028 || u == 0x2029 || u == 0x202F || u == 0x205F || u
        == 0x3000
}

/// A word (a maximal run of non-whitespace) starts at `i`.
pub open spec fn word_start(s: Seq<char>, i: int) -> bool {
    !is_ws(s[i]) && (i == 0 || is_ws(s[i - 1]))
}

/// Number of words, as `split_whitespace().count()` counts them.
pub open spec fn count_words(s: Seq<char>) -> nat
    decreases s.len(),
{
    if s.len() == 0 {
        0
    } else {
        count_words(s.drop_last()) + if word_start(s, s.len() - 1) { 1nat } else { 0nat }
    }
}

/// Number of characters of `s` that are not whitespace.
pub open spec fn count_non_ws_spec(s: Seq<char>) -> nat
    decreases s.len(),
{
    if s.len() == 0 {
        0
    } else {
        count_non_ws_spec(s.drop_last()) + if !is_ws(s.last()) { 1nat } else { 0nat }
    }
}

/// Number of sentence-ending characters in `s`.
pub open spec fn count_sentence_ends_spec(s: Seq<char>) -> nat
    decreases s.len(),
{
    if s.len() == 0 {
        0
    } else {
        count_sentence_ends_spec(s.drop_last()) + if is_sentence_end(s.last()) { 1nat } else { 0nat }
    }
}

/// Every character of `s` is whitespace (`s.trim()` is empty).
pub open spec fn all_ws(s: Seq<char>) -> bool {
    forall|i: int| 0 <= i < s.len() ==> is_ws(#[trigger] s[i])
}

/// A character that ends a sentence.
pub open spec fn is_sentence_end(c: char) -> bool {
    c == '.' || c == '!' || c == '?' || c == '\u{3002}'
}

/// The number of words in `text`.
pub fn count_words_in(text: &str) -> (n: usize)
    ensures
        n == count_words(text@),
{
    let cs = chars_of(text);
    let len = cs.len();
    let mut n: usize = 0;
    let mut i: usize = 0;
    let ghost s = text@;
    while i < len
        invariant
            cs@ == s,
            len == s.len(),
            i <= len,
            n <= i,
            n == count_words(s.take(i as int)),
        decreases len - i,
    {
        let start = !is_whitespace(cs[i]) && (i == 0 || is_whitespace(cs[i - 1]));
        proof {
            assert(s.take(i + 1).drop_last() =~= s.take(i as int));
            assert(word_start(s.take(i + 1), i as int) == word_start(s, i as int));
        }
        if start {
            n += 1;
        }
        i += 1;
    }
    proof {
        assert(s.take(len as int) =~= s);
    }
    n
}

/// Number of characters of `cs` that are not whitespace.
fn count_non_ws(cs: &Vec<char>) -> (n: usize)
    ensures
        n == count_non_ws_spec(cs@),
{
    let len = cs.len();
    let mut n: usize = 0;
    let mut i: usize = 0;
    while i < len
        invariant
            len == cs@.len(),
            i <= len,
            n <= i,
            n == count_non_ws_spec(cs@.take(i as int)),
        decreases len - i,
    {
        proof {
            assert(cs@.take(i + 1).drop_last() =~= cs@.take(i as int));
            assert(cs@.take(i + 1).last() == cs@[i as int]);
        }
        if !is_whitespace(cs[i]) {
            n += 1;
        }
        i += 1;
    }
    proof {
        assert(cs@.take(len as int) =~= cs@);
    }
    n
}

/// Number of characters of `text` that are not whitespace.
pub fn count_non_ws_in(text: &str) -> (n: usize)
    ensures
        n == count_non_ws_spec(text@),
{
    let cs = chars_of(text);
    count_non_ws(&cs)
}

/// Number of sentence-ending characters (`.`, `!`, `?`, `。`) in `cs`.
fn count_sentence_ends(cs: &Vec<char>) -> (n: usize)
    ensures
        n == count_sentence_ends_spec(cs@),
{
    let len = cs.len();
    let mut n: usize = 0;
    let mut i: usize = 0;
    while i < len
        invariant
            len == cs@.len(),
            i <= len,
            n <= i,
            n == count_sentence_ends_spec(cs@.take(i as int)),
        decreases len - i,
    {
        proof {
            assert(cs@.take(i + 1).drop_last() =~= cs@.take(i as int));
            assert(cs@.take(i + 1).last() == cs@[i as int]);
        }
        let c = cs[i];
        if c == '.' || c == '!' || c == '?' || c == '\u{3002}' {
            n += 1;
        }
        i += 1;
    }
    proof {
        assert(cs@.take(len as int) =~= cs@);
    }
    n
}

/// Whether every character of `cs[from..to]` is whitespace.
fn all_ws_range(cs: &Vec<char>, from: usize, to: usize) -> (r: bool)
    requires
        from <= to <= cs.len(),
    ensures
        r == all_ws(cs@.subrange(from as int, to as int)),
{
    let mut i = from;
    while i < to
        invariant
            from <= i <= to <= cs.len(),
            forall|k: int| from <= k < i ==> is_ws(#[trigger] cs@[k]),
        decreases to - i,
    {
        if !is_whitespace(cs[i]) {
            proof {
                assert(!is_ws(cs@.subrange(from as int, to as int)[i - from]));
            }
            return false;
        }
        i += 1;
    }
    proof {
        assert forall|k: int| 0 <= k < to - from implies is_ws(
            #[trigger] cs@.subrange(from as int, to as int)[k],
        ) by {
            assert(cs@.subrange(from as int, to as int)[k] == cs@[from + k]);
        }
    }
    true
}

/// Whether `text` is empty or all whitespace (its trimmed form is empty).
pub fn is_blank(text: &str) -> (r: bool)
    ensures
        r == all_ws(text@),
{
    let cs = chars_of(text);
    let r = all_ws_range(&cs, 0, cs.len());
    proof {
        assert(cs@.subrange(0, cs@.len() as int) =~= cs@);
    }
    r
}

/// Number of sentences: the sentence-ending characters, but at least one when
/// the text has a word; zero for an empty text.
pub open spec fn spec_sentence_count(s: Seq<char>) -> nat {
    if s.len() == 0 {
        0
    } else {
        let ends = count_sentence_ends_spec(s);
        let floor: nat = if count_words(s) > 0 { 1 } else { 0 };
        if ends >= floor { ends } else { floor }
    }
}

/// The sentence count of `text`.
pub fn sentence_count_of(text: &str) -> (n: usize)
    ensures
        n == spec_sentence_count(text@),
{
    let cs = chars_of(text);
    if cs.len() == 0 {
        return 0;
    }
    let ends = count_sentence_ends(&cs);
    let words = count_words_in(text);
    let floor: usize = if words > 0 { 1 } else { 0 };
    if ends >= floor { ends } else { floor }
}

// ── Lines ─────────────────────────────────────────────────────────────

/// A line without the carriage return that ends it, if any.
pub open spec fn strip_cr(l: Seq<char>) -> Seq<char> {
    if l.len() > 0 && l.last() == '\r' {
        l.drop_last()
    } else {
        l
    }
}

/// The lines of `s[i..]` as `str::lines` gives them: split at `\n`, a `\r`
/// before the `\n` removed, and no empty line after a final `\n`.
pub open spec fn lines_from(s: Seq<char>, i: int) -> Seq<Seq<char>>
    decreases s.len() - i,
{
    if i < 0 || i >= s.len() {
        seq![]
    } else {
        let j = char_close(s, i, '\n');
        proof {
            lemma_char_close(s, i, '\n');
        }
        if j >= s.len() {
            seq![s.subrange(i, s.len() as int)]
        } else {
            seq![strip_cr(s.subrange(i, j))] + lines_from(s, j + 1)
        }
    }
}

/// The lines of `s`.
pub open spec fn lines_of(s: Seq<char>) -> Seq<Seq<char>> {
    lines_from(s, 0)
}

/// Character ranges `(start, end)` of the lines of `cs`, carriage returns excluded.
pub fn line_ranges(cs: &Vec<char>) -> (r: Vec<(usize, usize)>)
    ensures
        r@.len() == lines_of(cs@).len(),
        forall|k: int|
            #![trigger r@[k]]
            0 <= k < r@.len() ==> r@[k].0 <= r@[k].1 <= cs@.len() && cs@.subrange(
                r@[k].0 as int,
                r@[k].1 as int,
            ) == lines_of(cs@)[k],
{
    let len = cs.len();
    let mut r: Vec<(usize, usize)> = Vec::new();
    let mut i: usize = 0;
    let ghost s = cs@;
    while i < len
        invariant
            s == cs@,
            len == s.len(),
            i <= len,
            r@.len() + lines_from(s, i as int).len() == lines_of(s).len(),
            forall|k: int|
                #![trigger r@[k]]
                0 <= k < r@.len() ==> r@[k].0 <= r@[k].1 <= s.len() && s.subrange(
                    r@[k].0 as int,
                    r@[k].1 as int,
                ) == lines_of(s)[k],
            forall|k: int|
                0 <= k < lines_from(s, i as int).len() ==> #[trigger] lines_from(s, i as int)[k]
                    == lines_of(s)[r@.len() + k],
        decreases len - i,
    {
        let mut j = i;
        proof {
            lemma_char_close(s, i as int, '\n');
        }
        while j < len && cs[j] != '\n'
            invariant
                s == cs@,
                len == s.len(),
                i <= j <= len,
                char_close(s, j as int, '\n') == char_close(s, i as int, '\n'),
            decreases len - j,
        {
            j += 1;
        }
        let ghost rest = lines_from(s, i as int);
        if j >= len {
            r.push((i, len));
            proof {
                assert(rest =~= seq![s.subrange(i as int, len as int)]);
                assert(rest[0] == lines_of(s)[r@.len() - 1]);
                assert(r@[r@.len() - 1] == (i, len));
                assert(lines_from(s, len as int) =~= Seq::<Seq<char>>::empty());
            }
            i = len;
        } else {
            let end = if j > i && cs[j - 1] == '\r' { j - 1 } else { j };
            r.push((i, end));
            proof {
                let line = s.subrange(i as int, j as int);
                assert(rest == seq![strip_cr(line)] + lines_from(s, j + 1));
                assert(s.subrange(i as int, end as int) =~= strip_cr(line));
                assert(rest[0] == lines_of(s)[r@.len() - 1]);
                assert(r@[r@.len() - 1] == (i, end));
                assert forall|k: int| 0 <= k < lines_from(s, j + 1).len() implies #[trigger] lines_from(s, j + 1)[k]
                    == lines_of(s)[r@.len() + k] by {
                    assert(lines_from(s, j + 1)[k] == rest[k + 1]);
                }
            }
            i = j + 1;
        }
    }
    r
}

/// The number of lines shown for a text: one for an empty text, and at
/// least one otherwise.
pub open spec fn spec_line_count(s: Seq<char>) -> nat {
    if s.len() == 0 {
        1
    } else if lines_of(s).len() == 0 {
        1
    } else {
        lines_of(s).len()
    }
}

/// The line count of `text`.
pub fn line_count_of(text: &str) -> (n: usize)
    ensures
        n == spec_line_count(text@),
{
    let cs = chars_of(text);
    if cs.len() == 0 {
        return 1;
    }
    let r = line_ranges(&cs);
    if r.len() == 0 { 1 } else { r.len() }
}

// ── Paragraphs ────────────────────────────────────────────────────────

/// Where a piece that starts at `j` ends: at the next blank line (`\n\n`),
/// or at the last character when none follows.
pub open spec fn blank_close(s: Seq<char>, j: int) -> int
    decreases s.len() - j,
{
    if j + 1 >= s.len() || (s[j] == '\n' && s[j + 1] == '\n') {
        j
    } else {
        blank_close(s, j + 1)
    }
}

pub proof fn lemma_blank_close(s: Seq<char>, j: int)
    ensures
        blank_close(s, j) >= j,
        j <= s.len() ==> blank_close(s, j) <= s.len(),
        blank_close(s, j) + 1 < s.len() ==> s[blank_close(s, j)] == '\n' && s[blank_close(s, j) + 1] == '\n',
        forall|k: int| j <= k < blank_close(s, j) ==> !(#[trigger] s[k] == '\n' && s[k + 1] == '\n'),
    decreases s.len() - j,
{
    if !(j + 1 >= s.len() || (s[j] == '\n' && s[j + 1] == '\n')) {
        lemma_blank_close(s, j + 1);
    }
}

/// The pieces of `s[i..]` as `split("\n\n")` gives them.
pub open spec fn pieces_from(s: Seq<char>, i: int) -> Seq<Seq<char>>
    decreases s.len() + 1 - i,
{
    if i < 0 || i > s.len() {
        seq![]
    } else {
        let j = blank_close(s, i);
        proof {
            lemma_blank_close(s, i);
        }
        if j + 1 >= s.len() {
            seq![s.subrange(i, s.len() as int)]
        } else {
            seq![s.subrange(i, j)] + pieces_from(s, j + 2)
        }
    }
}

/// Number of pieces of `ps` that hold something other than whitespace.
pub open spec fn count_filled(ps: Seq<Seq<char>>) -> nat
    decreases ps.len(),
{
    if ps.len() == 0 {
        0
    } else {
        count_filled(ps.drop_last()) + if all_ws(ps.last()) { 0nat } else { 1nat }
    }
}

/// Number of paragraphs: zero for a blank text, otherwise the non-blank
/// pieces between blank lines, at least one.
pub open spec fn spec_paragraph_count(s: Seq<char>) -> nat {
    if all_ws(s) {
        0
    } else {
        let n = count_filled(pieces_from(s, 0));
        if n == 0 { 1 } else { n }
    }
}

proof fn lemma_count_filled_push(ps: Seq<Seq<char>>, p: Seq<char>)
    ensures
        count_filled(ps.push(p)) == count_filled(ps) + if all_ws(p) { 0nat } else { 1nat },
{
    assert(ps.push(p).drop_last() =~= ps);
}

/// The paragraph count of `text`.
pub fn paragraph_count_of(text: &str) -> (n: usize)
    ensures
        n == spec_paragraph_count(text@),
{
    let cs = chars_of(text);
    let len = cs.len();
    let ghost s = text@;
    if all_ws_range(&cs, 0, len) {
        proof {
            assert(s.subrange(0, len as int) =~= s);
        }
        return 0;
    }
    proof {
        assert(s.subrange(0, len as int) =~= s);
    }
    let mut i: usize = 0;
    let mut n: usize = 0;
    let ghost mut done: Seq<Seq<char>> = seq![];
    loop
        invariant
            cs@ == s,
            len == s.len(),
            i <= len,
            n <= i,
            s == text@,
            !all_ws(s),
            n == count_filled(done),
            done + pieces_from(s, i as int) == pieces_from(s, 0),
        decreases len - i,
    {
        let mut j = i;
        proof {
            lemma_blank_close(s, i as int);
        }
        while len > 0 && j < len - 1 && !(cs[j] == '\n' && cs[j + 1] == '\n')
            invariant
                cs@ == s,
                len == s.len(),
                i <= j <= len,
                blank_close(s, j as int) == blank_close(s, i as int),
            decreases len - j,
        {
            j += 1;
        }
        if !(len > 0 && j < len - 1) {
            let filled = !all_ws_range(&cs, i, len);
            proof {
                assert(pieces_from(s, i as int) =~= seq![s.subrange(i as int, len as int)]);
                lemma_count_filled_push(done, s.subrange(i as int, len as int));
                assert(done.push(s.subrange(i as int, len as int)) =~= pieces_from(s, 0));
            }
            if filled {
                n += 1;
            }
            return if n == 0 { 1 } else { n };
        } else {
            let filled = !all_ws_range(&cs, i, j);
            proof {
                let p = s.subrange(i as int, j as int);
                assert(pieces_from(s, i as int) == seq![p] + pieces_from(s, j + 2));
                lemma_count_filled_push(done, p);
                assert(done.push(p) + pieces_from(s, j + 2) =~= done + pieces_from(s, i as int));
                done = done.push(p);
            }
            if filled {
                n += 1;
            }
            i = j + 2;
        }
    }
}

// ── Outline ───────────────────────────────────────────────────────────

/// Number of whitespace characters at the start of `s`.
pub open spec fn lead_ws(s: Seq<char>) -> nat
    decreases s.len(),
{
    if s.len() == 0 || !is_ws(s[0]) {
        0
    } else {
        1 + lead_ws(s.drop_first())
    }
}

/// Number of whitespace characters at the end of `s`.
pub open spec fn trail_ws(s: Seq<char>) -> nat
    decreases s.len(),
{
    if s.len() == 0 || !is_ws(s.last()) {
        0
    } else {
        1 + trail_ws(s.drop_last())
    }
}

/// `s` without its leading whitespace (`str::trim_start`).
pub open spec fn trim_start(s: Seq<char>) -> Seq<char> {
    s.skip(lead_ws(s) as int)
}

/// `s` without leading or trailing whitespace (`str::trim`).
pub open spec fn trim(s: Seq<char>) -> Seq<char> {
    let t = trim_start(s);
    t.take(t.len() - trail_ws(t))
}

/// Number of `#` characters at the start of `s`.
pub open spec fn lead_hashes(s: Seq<char>) -> nat
    decreases s.len(),
{
    if s.len() == 0 || s[0] != '#' {
        0
    } else {
        1 + lead_hashes(s.drop_first())
    }
}

/// The heading a line declares, as `(level, text)`: the line, once leading
/// whitespace is dropped, starts with one to six `#`, and the rest, trimmed,
/// is not empty.
pub open spec fn heading_of(line: Seq<char>) -> Option<(nat, Seq<char>)> {
    let t = trim_start(line);
    let level = lead_hashes(t);
    let h = trim(t.skip(level as int));
    if level >= 1 && level <= 6 && h.len() > 0 {
        Some((level, h))
    } else {
        None
    }
}

/// The outline of the lines `ls[k..]`, numbering lines from one.
pub open spec fn outline_from(ls: Seq<Seq<char>>, k: int) -> Seq<(int, Seq<char>, int)>
    decreases ls.len() - k,
{
    if k < 0 || k >= ls.len() {
        seq![]
    } else {
        match heading_of(ls[k]) {
            Some((level, h)) => seq![(k + 1, h, level as int)] + outline_from(ls, k + 1),
            None => outline_from(ls, k + 1),
        }
    }
}

/// The heading outline of a text: `(line number, heading, level)` per heading.
pub open spec fn spec_outline(s: Seq<char>) -> Seq<(int, Seq<char>, int)> {
    outline_from(lines_of(s), 0)
}

/// Leading whitespace is part of the text.
pub proof fn lemma_lead_ws_le(s: Seq<char>)
    ensures
        lead_ws(s) <= s.len(),
    decreases s.len(),
{
    if s.len() > 0 && is_ws(s[0]) {
        lemma_lead_ws_le(s.drop_first());
    }
}

/// Leading hashes are part of the text.
pub proof fn lemma_lead_hashes_le(s: Seq<char>)
    ensures
        lead_hashes(s) <= s.len(),
    decreases s.len(),
{
    if s.len() > 0 && s[0] == '#' {
        lemma_lead_hashes_le(s.drop_first());
    }
}

pub proof fn lemma_lead_ws_sub(s: Seq<char>, a: int, b: int, k: int)
    requires
        0 <= a <= k <= b <= s.len(),
        forall|t: int| a <= t < k ==> is_ws(#[trigger] s[t]),
        k == b || !is_ws(s[k]),
    ensures
        lead_ws(s.subrange(a, b)) == k - a,
    decreases k - a,
{
    if a < k {
        lemma_lead_ws_sub(s, a + 1, b, k);
        assert(s.subrange(a, b).drop_first() =~= s.subrange(a + 1, b));
    }
}

proof fn lemma_trail_ws_sub(s: Seq<char>, a: int, b: int, k: int)
    requires
        0 <= a <= k <= b <= s.len(),
        forall|t: int| k <= t < b ==> is_ws(#[trigger] s[t]),
        k == a || !is_ws(s[k - 1]),
    ensures
        trail_ws(s.subrange(a, b)) == b - k,
    decreases b - k,
{
    if k < b {
        lemma_trail_ws_sub(s, a, b - 1, k);
        assert(s.subrange(a, b).drop_last() =~= s.subrange(a, b - 1));
    }
}

pub proof fn lemma_lead_hashes_sub(s: Seq<char>, a: int, b: int, k: int)
    requires
        0 <= a <= k <= b <= s.len(),
        forall|t: int| a <= t < k ==> #[trigger] s[t] == '#',
        k == b || s[k] != '#',
    ensures
        lead_hashes(s.subrange(a, b)) == k - a,
    decreases k - a,
{
    if a < k {
        lemma_lead_hashes_sub(s, a + 1, b, k);
        assert(s.subrange(a, b).drop_first() =~= s.subrange(a + 1, b));
    }
}

/// The heading of the line `cs[a..b]`, as character bounds of its text.
fn heading_in(cs: &Vec<char>, a: usize, b: usize) -> (r: Option<(usize, usize, usize)>)
    requires
        a <= b <= cs.len(),
    ensures
        match r {
            Some((level, hs, he)) => hs <= he <= b && heading_of(cs@.subrange(a as int, b as int))
                == Some((level as nat, cs@.subrange(hs as int, he as int))),
            None => heading_of(cs@.subrange(a as int, b as int)) is None,
        },
{
    let ghost line = cs@.subrange(a as int, b as int);
    let mut t = a;
    while t < b && is_whitespace(cs[t])
        invariant
            a <= t <= b <= cs.len(),
            forall|u: int| a <= u < t ==> is_ws(#[trigger] cs@[u]),
        decreases b - t,
    {
        t += 1;
    }
    proof {
        lemma_lead_ws_sub(cs@, a as int, b as int, t as int);
        assert(trim_start(line) =~= cs@.subrange(t as int, b as int));
    }
    let mut h = t;
    while h < b && cs[h] == '#'
        invariant
            t <= h <= b <= cs.len(),
            forall|u: int| t <= u < h ==> #[trigger] cs@[u] == '#',
        decreases b - h,
    {
        h += 1;
    }
    let level = h - t;
    proof {
        lemma_lead_hashes_sub(cs@, t as int, b as int, h as int);
        assert(trim_start(line).skip(level as int) =~= cs@.subrange(h as int, b as int));
    }
    // trim the rest
    let mut s = h;
    while s < b && is_whitespace(cs[s])
        invariant
            h <= s <= b <= cs.len(),
            forall|u: int| h <= u < s ==> is_ws(#[trigger] cs@[u]),
        decreases b - s,
    {
        s += 1;
    }
    let mut e = b;
    while e > s && is_whitespace(cs[e - 1])
        invariant
            s <= e <= b <= cs.len(),
            forall|u: int| e <= u < b ==> is_ws(#[trigger] cs@[u]),
        decreases e,
    {
        e -= 1;
    }
    proof {
        lemma_lead_ws_sub(cs@, h as int, b as int, s as int);
        let rest = cs@.subrange(h as int, b as int);
        assert(trim_start(rest) =~= cs@.subrange(s as int, b as int));
        lemma_trail_ws_sub(cs@, s as int, b as int, e as int);
        assert(trim(rest) =~= cs@.subrange(s as int, e as int));
    }
    if level >= 1 && level <= 6 && e > s {
        Some((level, s, e))
    } else {
        None
    }
}

/// The start of `cs[a..b]` once its leading whitespace is dropped.
pub fn trim_start_at(cs: &Vec<char>, a: usize, b: usize) -> (t: usize)
    requires
        a <= b <= cs.len(),
    ensures
        a <= t <= b,
        cs@.subrange(t as int, b as int) == trim_start(cs@.subrange(a as int, b as int)),
{
    let mut t = a;
    while t < b && is_whitespace(cs[t])
        invariant
            a <= t <= b <= cs.len(),
            forall|u: int| a <= u < t ==> is_ws(#[trigger] cs@[u]),
        decreases b - t,
    {
        t += 1;
    }
    proof {
        lemma_lead_ws_sub(cs@, a as int, b as int, t as int);
        assert(trim_start(cs@.subrange(a as int, b as int)) =~= cs@.subrange(t as int, b as int));
    }
    t
}

/// The bounds of `cs[a..b]` once leading and trailing whitespace is dropped.
pub fn trim_range(cs: &Vec<char>, a: usize, b: usize) -> (r: (usize, usize))
    requires
        a <= b <= cs.len(),
    ensures
        a <= r.0 <= r.1 <= b,
        cs@.subrange(r.0 as int, r.1 as int) == trim(cs@.subrange(a as int, b as int)),
{
    let s = trim_start_at(cs, a, b);
    let mut e = b;
    while e > s && is_whitespace(cs[e - 1])
        invariant
            s <= e <= b <= cs.len(),
            forall|u: int| e <= u < b ==> is_ws(#[trigger] cs@[u]),
        decreases e,
    {
        e -= 1;
    }
    proof {
        lemma_trail_ws_sub(cs@, s as int, b as int, e as int);
        let t = trim_start(cs@.subrange(a as int, b as int));
        assert(t =~= cs@.subrange(s as int, b as int));
        assert(trim(cs@.subrange(a as int, b as int)) =~= cs@.subrange(s as int, e as int));
    }
    (s, e)
}

/// The Markdown heading outline of `text`.
pub fn outline_of(text: &str) -> (r: Vec<(usize, String, usize)>)
    ensures
        r@.map_values(|e: (usize, String, usize)| (e.0 as int, e.1@, e.2 as int)) == spec_outline(
            text@,
        ),
{
    let cs = chars_of(text);
    let lines = line_ranges(&cs);
    let ghost s = text@;
    let ghost ls = lines_of(s);
    let mut r: Vec<(usize, String, usize)> = Vec::new();
    let mut k: usize = 0;
    while k < lines.len()
        invariant
            cs@ == s,
            ls == lines_of(s),
            lines@.len() == ls.len(),
            forall|q: int|
                #![trigger lines@[q]]
                0 <= q < lines@.len() ==> lines@[q].0 <= lines@[q].1 <= s.len() && s.subrange(
                    lines@[q].0 as int,
                    lines@[q].1 as int,
                ) == ls[q],
            k <= lines@.len(),
            r@.map_values(|e: (usize, String, usize)| (e.0 as int, e.1@, e.2 as int)) + outline_from(
                ls,
                k as int,
            ) == spec_outline(s),
        decreases lines@.len() - k,
    {
        let (a, b) = lines[k];
        let ghost before = r@.map_values(|e: (usize, String, usize)| (e.0 as int, e.1@, e.2 as int));
        proof {
            assert(s.subrange(a as int, b as int) == ls[k as int]);
        }
        match heading_in(&cs, a, b) {
            Some((level, hs, he)) => {
                let h = string_from_chars(&cs, hs, he);
                r.push((k + 1, h, level));
                proof {
                    assert(r@.map_values(|e: (usize, String, usize)| (e.0 as int, e.1@, e.2 as int))
                        =~= before.push((k + 1, s.subrange(hs as int, he as int), level as int)));
                }
            },
            None => {
                proof {
                    assert(r@.map_values(|e: (usize, String, usize)| (e.0 as int, e.1@, e.2 as int))
                        =~= before);
                }
            },
        }
        k += 1;
    }
    r
}

// ── Go to line ────────────────────────────────────────────────────────

/// Byte offset of the start of line `target` (counting from zero), summing
/// each earlier line's byte length plus one for its newline; capped at the
/// byte length of the text.
pub open spec fn line_offset(ls: Seq<Seq<char>>, target: int) -> int
    decreases target,
{
    if target <= 0 {
        0
    } else {
        let prev = line_offset(ls, target - 1);
        if target - 1 < ls.len() {
            prev + encode_utf8(ls[target - 1]).len() + 1
        } else {
            prev
        }
    }
}

/// Byte position of the start of line `line` (numbered from one); line
/// numbers past the end give the end of the text.
pub open spec fn spec_goto_line(s: Seq<char>, line: int) -> int {
    let target = if line >= 1 { line - 1 } else { 0 };
    let off = line_offset(lines_of(s), target);
    if off <= encode_utf8(s).len() { off } else { encode_utf8(s).len() as int }
}

proof fn lemma_count_filled_concat(a: Seq<Seq<char>>, b: Seq<Seq<char>>)
    ensures
        count_filled(a + b) == count_filled(a) + count_filled(b),
    decreases b.len(),
{
    if b.len() == 0 {
        assert(a + b =~= a);
    } else {
        lemma_count_filled_concat(a, b.drop_last());
        assert((a + b).drop_last() =~= a + b.drop_last());
        assert((a + b).last() == b.last());
    }
}

/// The pieces of a stretch of whitespace are all blank.
proof fn lemma_pieces_blank(u: Seq<char>, i: int)
    requires
        0 <= i,
        forall|k: int| i <= k < u.len() ==> is_ws(#[trigger] u[k]),
    ensures
        count_filled(pieces_from(u, i)) == 0,
    decreases u.len() + 1 - i,
{
    if i <= u.len() {
        let j = blank_close(u, i);
        lemma_blank_close(u, i);
        if j + 1 >= u.len() {
            let x = u.subrange(i, u.len() as int);
            assert(all_ws(x)) by {
                assert forall|k: int| 0 <= k < x.len() implies is_ws(#[trigger] x[k]) by {
                    assert(x[k] == u[i + k]);
                }
            }
            lemma_count_filled_push(Seq::<Seq<char>>::empty(), x);
            assert(Seq::<Seq<char>>::empty().push(x) =~= seq![x]);
        } else {
            let x = u.subrange(i, j);
            assert(all_ws(x)) by {
                assert forall|k: int| 0 <= k < x.len() implies is_ws(#[trigger] x[k]) by {
                    assert(x[k] == u[i + k]);
                }
            }
            lemma_pieces_blank(u, j + 2);
            lemma_count_filled_push(Seq::<Seq<char>>::empty(), x);
            assert(Seq::<Seq<char>>::empty().push(x) =~= seq![x]);
            lemma_count_filled_concat(seq![x], pieces_from(u, j + 2));
        }
    }
}

/// The first blank line from `i` on is at `j` when `j` starts one and none
/// starts before it.
proof fn lemma_blank_close_at(u: Seq<char>, i: int, j: int)
    requires
        0 <= i <= j,
        j + 1 < u.len(),
        u[j] == '\n' && u[j + 1] == '\n',
        forall|q: int| i <= q < j ==> !(#[trigger] u[q] == '\n' && u[q + 1] == '\n'),
    ensures
        blank_close(u, i) == j,
    decreases j - i,
{
    if i < j {
        lemma_blank_close_at(u, i + 1, j);
    }
}

/// The search for a blank line reaches `n0` when no blank line starts
/// from `p` up to it.
proof fn lemma_blank_close_past(u: Seq<char>, n0: int, p: int)
    requires
        0 <= p <= n0 < u.len(),
        forall|q: int| p <= q < n0 ==> !(#[trigger] u[q] == '\n' && u[q + 1] == '\n'),
    ensures
        blank_close(u, p) >= n0,
    decreases n0 - p,
{
    lemma_blank_close(u, p);
    if p < n0 {
        lemma_blank_close_past(u, n0, p + 1);
    }
}

/// `a` and `a` followed by whitespace are blank alike.
proof fn lemma_ws_suffix(a: Seq<char>, v: Seq<char>)
    requires
        all_ws(v),
    ensures
        all_ws(a + v) == all_ws(a),
{
    if all_ws(a) {
        assert forall|k: int| 0 <= k < (a + v).len() implies is_ws(#[trigger] (a + v)[k]) by {
            if k < a.len() {
                assert((a + v)[k] == a[k]);
            } else {
                assert((a + v)[k] == v[k - a.len()]);
            }
        }
    }
    if all_ws(a + v) {
        assert forall|k: int| 0 <= k < a.len() implies is_ws(#[trigger] a[k]) by {
            assert((a + v)[k] == a[k]);
        }
    }
}

/// Whitespace after a text that ends in something other than a newline
/// adds no non-blank piece.
proof fn lemma_filled_tail(s0: Seq<char>, v: Seq<char>, i: int)
    requires
        0 <= i <= s0.len(),
        s0.len() == 0 || s0.last() != '\n',
        all_ws(v),
        v.len() > 0,
    ensures
        count_filled(pieces_from(s0 + v, i)) == count_filled(pieces_from(s0, i)),
    decreases s0.len() - i,
{
    let u = s0 + v;
    let n0 = s0.len() as int;
    assert forall|k: int| n0 <= k < u.len() implies is_ws(#[trigger] u[k]) by {
        assert(u[k] == v[k - n0]);
    }
    if i == n0 {
        lemma_pieces_blank(u, i);
        lemma_blank_close(s0, i);
        assert(pieces_from(s0, i) == seq![s0.subrange(i, n0)]);
        assert(all_ws(s0.subrange(i, n0)));
        lemma_count_filled_push(Seq::<Seq<char>>::empty(), s0.subrange(i, n0));
        assert(Seq::<Seq<char>>::empty().push(s0.subrange(i, n0)) =~= seq![s0.subrange(i, n0)]);
    } else {
        let j = blank_close(s0, i);
        lemma_blank_close(s0, i);
        if j + 1 < n0 {
            assert forall|q: int| i <= q < j implies !(#[trigger] u[q] == '\n' && u[q + 1] == '\n') by {
                assert(u[q] == s0[q] && u[q + 1] == s0[q + 1]);
            }
            assert(u[j] == s0[j] && u[j + 1] == s0[j + 1]);
            lemma_blank_close_at(u, i, j);
            assert(u.subrange(i, j) =~= s0.subrange(i, j));
            lemma_filled_tail(s0, v, j + 2);
            lemma_count_filled_concat(seq![s0.subrange(i, j)], pieces_from(u, j + 2));
            lemma_count_filled_concat(seq![s0.subrange(i, j)], pieces_from(s0, j + 2));
        } else {
            assert forall|q: int| i <= q < n0 implies !(#[trigger] u[q] == '\n' && u[q + 1] == '\n') by {
                if q + 1 < n0 {
                    assert(u[q] == s0[q] && u[q + 1] == s0[q + 1]);
                } else {
                    assert(u[q] == s0.last());
                }
            }
            lemma_blank_close_past(u, n0, i);
            let q = blank_close(u, i);
            lemma_blank_close(u, i);
            let tail = s0.subrange(i, n0);
            assert(pieces_from(s0, i) == seq![tail]);
            lemma_count_filled_push(Seq::<Seq<char>>::empty(), tail);
            assert(Seq::<Seq<char>>::empty().push(tail) =~= seq![tail]);
            let end = if q + 1 >= u.len() { u.len() as int } else { q };
            let x = u.subrange(i, end);
            assert(x =~= tail + u.subrange(n0, end));
            assert(all_ws(u.subrange(n0, end))) by {
                assert forall|k: int| 0 <= k < u.subrange(n0, end).len() implies is_ws(
                    #[trigger] u.subrange(n0, end)[k],
                ) by {
                    assert(u.subrange(n0, end)[k] == u[n0 + k]);
                }
            }
            lemma_ws_suffix(tail, u.subrange(n0, end));
            lemma_count_filled_push(Seq::<Seq<char>>::empty(), x);
            assert(Seq::<Seq<char>>::empty().push(x) =~= seq![x]);
            if q + 1 < u.len() {
                lemma_pieces_blank(u, q + 2);
                lemma_count_filled_concat(seq![x], pieces_from(u, q + 2));
            }
        }
    }
}

/// `s` is its text up to the last non-whitespace character, followed by
/// whitespace.
proof fn lemma_trail_split(s: Seq<char>)
    ensures
        trail_ws(s) <= s.len(),
        forall|k: int| s.len() - trail_ws(s) <= k < s.len() ==> is_ws(#[trigger] s[k]),
        trail_ws(s) < s.len() ==> !is_ws(s[s.len() - trail_ws(s) - 1]),
    decreases s.len(),
{
    if s.len() > 0 && is_ws(s.last()) {
        lemma_trail_split(s.drop_last());
        assert forall|k: int| s.len() - trail_ws(s) <= k < s.len() implies is_ws(#[trigger] s[k]) by {
            if k < s.len() - 1 {
                assert(s[k] == s.drop_last()[k]);
            }
        }
        if trail_ws(s) < s.len() {
            assert(s[s.len() - trail_ws(s) - 1] == s.drop_last()[s.drop_last().len() - trail_ws(
                s.drop_last(),
            ) - 1]);
        }
    }
}

/// Whitespace after a text that ends in something other than a newline
/// leaves the paragraph count as it was.
proof fn lemma_count_tail(s0: Seq<char>, v: Seq<char>)
    requires
        s0.len() == 0 || s0.last() != '\n',
        all_ws(v),
    ensures
        spec_paragraph_count(s0 + v) == spec_paragraph_count(s0),
{
    if v.len() == 0 {
        assert(s0 + v =~= s0);
    } else {
        lemma_ws_suffix(s0, v);
        lemma_filled_tail(s0, v, 0);
    }
}

/// Whitespace at the end adds no paragraph: the paragraph count of `s`
/// followed by any whitespace (a blank line, spaces, newlines) is that of
/// `s`.
pub proof fn lemma_blank_tail(s: Seq<char>, v: Seq<char>)
    requires
        all_ws(v),
    ensures
        spec_paragraph_count(s + v) == spec_paragraph_count(s),
{
    lemma_trail_split(s);
    let n0 = s.len() - trail_ws(s);
    let s0 = s.take(n0);
    let z = s.skip(n0);
    assert(is_ws('\n')) by {
        assert(('\n' as u32) == 0x0A);
    }
    if n0 > 0 {
        assert(s0.last() == s[n0 - 1]);
    }
    assert(all_ws(z)) by {
        assert forall|k: int| 0 <= k < z.len() implies is_ws(#[trigger] z[k]) by {
            assert(z[k] == s[n0 + k]);
        }
    }
    lemma_ws_suffix(z, v);
    assert(s =~= s0 + z);
    assert(s + v =~= s0 + (z + v));
    lemma_count_tail(s0, z);
    lemma_count_tail(s0, z + v);
}

} // verus!
