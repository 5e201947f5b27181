//! Inline Markdown (bold, italic, code, links) as rendered by the preview.
use vstd::prelude::*;
use crate::text::{chars_of, push_char};

verus! {

/// How a run of inline text is drawn.
#[derive(Clone, Copy, Debug, PartialEq, Eq, Structural)]
pub enum InlineStyle {
    Normal,
    Bold,
    Italic,
    Code,
    LinkText,
}

/// A run of text with one inline style.
#[derive(Debug)]
pub struct InlineSpan {
    pub text: String,
    pub style: InlineStyle,
}

impl View for InlineSpan {
    type V = (Seq<char>, InlineStyle);

    open spec fn view(&self) -> (Seq<char>, InlineStyle) {
        (self.text@, self.style)
    }
}

/// The spans of a vector of spans, as values.
pub open spec fn spans_view(v: Seq<InlineSpan>) -> Seq<(Seq<char>, InlineStyle)> {
    v.map_values(|sp: InlineSpan| sp@)
}

/// Pending plain text, emitted as one span when it is not empty.
pub open spec fn flush(cur: Seq<char>) -> Seq<(Seq<char>, InlineStyle)> {
    if cur.len() == 0 {
        seq![]
    } else {
        seq![(cur, InlineStyle::Normal)]
    }
}

/// A styled run, emitted only when it is not empty.
pub open spec fn styled(t: Seq<char>, st: InlineStyle) -> Seq<(Seq<char>, InlineStyle)> {
    if t.len() == 0 {
        seq![]
    } else {
        seq![(t, st)]
    }
}

/// Where a bold run that starts at `j` stops: at the next `**`, or at the
/// end of the text when no `**` follows.
pub open spec fn bold_close(s: Seq<char>, j: int) -> int
    decreases s.len() - j,
{
    if j + 1 >= s.len() {
        s.len() as int
    } else if s[j] == '*' && s[j + 1] == '*' {
        j
    } else {
        bold_close(s, j + 1)
    }
}

/// The first index at or after `j` that holds `c`, or the length of `s`.
pub open spec fn char_close(s: Seq<char>, j: int, c: char) -> int
    decreases s.len() - j,
{
    if j >= s.len() || s[j] == c {
        j
    } else {
        char_close(s, j + 1, c)
    }
}

/// A bold run ends inside the text only at a `**`, and holds no `**`.
pub proof fn lemma_bold_close(s: Seq<char>, j: int)
    ensures
        0 <= j <= s.len() ==> j <= bold_close(s, j) <= s.len(),
        forall|k: int|
            j <= k < bold_close(s, j) && k + 1 < s.len() ==> !(#[trigger] s[k] == '*' && s[k + 1] == '*'),
        bold_close(s, j) < s.len() ==> bold_close(s, j) + 1 < s.len() && s[bold_close(s, j)] == '*'
            && s[bold_close(s, j) + 1] == '*',
    decreases s.len() - j,
{
    if !(j + 1 >= s.len() || (s[j] == '*' && s[j + 1] == '*')) {
        lemma_bold_close(s, j + 1);
    }
}

pub proof fn lemma_char_close(s: Seq<char>, j: int, c: char)
    ensures
        char_close(s, j, c) >= j,
        j <= s.len() ==> char_close(s, j, c) <= s.len(),
        forall|k: int| j <= k < char_close(s, j, c) ==> s[k] != c,
        char_close(s, j, c) < s.len() ==> s[char_close(s, j, c)] == c,
    decreases s.len() - j,
{
    if !(j >= s.len() || s[j] == c) {
        lemma_char_close(s, j + 1, c);
    }
}

/// The spans of `s[i..]`, given the plain text `cur` collected just before `i`.
///
/// `**x**` is bold, `*x*` italic, `` `x` `` code, and `[x](url)` a link whose
/// text is `x`; an unclosed marker runs to the end of the text. A `[` that is
/// not followed by `](` stays plain text.
pub open spec fn spans_from(s: Seq<char>, i: int, cur: Seq<char>) -> Seq<(Seq<char>, InlineStyle)>
    decreases s.len() - i,
{
    if i < 0 || i >= s.len() {
        flush(cur)
    } else if i + 1 < s.len() && s[i] == '*' && s[i + 1] == '*' {
        let j = bold_close(s, i + 2);
        let next = if j < s.len() { j + 2 } else { j };
        proof {
            lemma_bold_close(s, i + 2);
        }
        flush(cur) + styled(s.subrange(i + 2, j), InlineStyle::Bold) + spans_from(s, next, seq![])
    } else if s[i] == '*' {
        let j = char_close(s, i + 1, '*');
        let next = if j < s.len() { j + 1 } else { j };
        proof {
            lemma_char_close(s, i + 1, '*');
        }
        flush(cur) + styled(s.subrange(i + 1, j), InlineStyle::Italic) + spans_from(s, next, seq![])
    } else if s[i] == '`' {
        let j = char_close(s, i + 1, '`');
        let next = if j < s.len() { j + 1 } else { j };
        proof {
            lemma_char_close(s, i + 1, '`');
        }
        flush(cur) + styled(s.subrange(i + 1, j), InlineStyle::Code) + spans_from(s, next, seq![])
    } else if s[i] == '[' {
        let j = char_close(s, i + 1, ']');
        proof {
            lemma_char_close(s, i + 1, ']');
        }
        if j + 1 < s.len() && s[j + 1] == '(' {
            let m = char_close(s, j + 2, ')');
            let next = if m < s.len() { m + 1 } else { m };
            proof {
                lemma_char_close(s, j + 2, ')');
            }
            flush(cur) + seq![(s.subrange(i + 1, j), InlineStyle::LinkText)] + spans_from(s, next, seq![])
        } else {
            spans_from(s, j, cur + seq!['['] + s.subrange(i + 1, j))
        }
    } else {
        spans_from(s, i + 1, cur.push(s[i]))
    }
}

/// The inline spans of a line of Markdown.
pub open spec fn inline_spans(s: Seq<char>) -> Seq<(Seq<char>, InlineStyle)> {
    spans_from(s, 0, seq![])
}

/// Collects `cs[from..]` up to the stop index given by `close`, as a string.
fn collect_until_char(cs: &Vec<char>, from: usize, c: char) -> (r: (String, usize))
    requires
        from <= cs.len(),
    ensures
        r.1 == char_close(cs@, from as int, c),
        r.0@ == cs@.subrange(from as int, r.1 as int),
{
    let mut out = String::new();
    let mut i = from;
    proof {
        lemma_char_close(cs@, from as int, c);
    }
    while i < cs.len() && cs[i] != c
        invariant
            from <= i <= cs.len(),
            char_close(cs@, i as int, c) == char_close(cs@, from as int, c),
            out@ == cs@.subrange(from as int, i as int),
        decreases cs.len() - i,
    {
        push_char(&mut out, cs[i]);
        i += 1;
        assert(out@ =~= cs@.subrange(from as int, i as int));
    }
    (out, i)
}

/// Pushes the pending plain text as a span when it is not empty.
fn flush_into(spans: &mut Vec<InlineSpan>, cur: &mut String)
    ensures
        spans_view(final(spans)@) == spans_view(old(spans)@) + flush(old(cur)@),
        final(cur)@ == Seq::<char>::empty(),
{
    if !cur.as_str().is_empty() {
        let mut t = String::new();
        std::mem::swap(&mut t, cur);
        spans.push(InlineSpan { text: t, style: InlineStyle::Normal });
        proof {
            assert(spans_view(spans@) =~= spans_view(old(spans)@) + flush(old(cur)@));
        }
    } else {
        proof {
            assert(old(cur)@.len() == 0);
            assert(spans_view(spans@) =~= spans_view(old(spans)@) + flush(old(cur)@));
        }
        *cur = String::new();
    }
}

/// Pushes a styled span when its text is not empty.
fn push_styled(spans: &mut Vec<InlineSpan>, t: String, st: InlineStyle)
    ensures
        spans_view(final(spans)@) == spans_view(old(spans)@) + styled(t@, st),
{
    if !t.as_str().is_empty() {
        spans.push(InlineSpan { text: t, style: st });
        proof {
            assert(spans_view(spans@) =~= spans_view(old(spans)@) + styled(t@, st));
        }
    } else {
        proof {
            assert(spans_view(spans@) =~= spans_view(old(spans)@) + styled(t@, st));
        }
    }
}

/// Splits a line of Markdown into styled runs for the preview.
pub fn parse_inline_md(input: &str) -> (spans: Vec<InlineSpan>)
    ensures
        spans_view(spans@) == inline_spans(input@),
{
    let mut spans: Vec<InlineSpan> = Vec::new();
    let cs = chars_of(input);
    let len = cs.len();
    let mut i: usize = 0;
    let mut current = String::new();
    let ghost s = input@;
    while i < len
        invariant
            cs@ == s,
            len == s.len(),
            i <= len,
            spans_view(spans@) + spans_from(s, i as int, current@) == inline_spans(s),
        decreases len - i,
    {
        let ghost before = spans_view(spans@);
        let ghost cur0 = current@;
        if i + 1 < len && cs[i] == '*' && cs[i + 1] == '*' {
            flush_into(&mut spans, &mut current);
            // bold: up to the next "**"
            let mut j = i + 2;
            let mut bold = String::new();
            proof {
                lemma_bold_close(s, i + 2);
            }
            while j < len && j < len - 1 && !(cs[j] == '*' && cs[j + 1] == '*')
                invariant
                    cs@ == s,
                    len == s.len(),
                    i + 2 <= j <= len,
                    bold_close(s, j as int) == bold_close(s, i + 2),
                    bold@ == s.subrange(i + 2, j as int),
                decreases len - j,
            {
                push_char(&mut bold, cs[j]);
                j += 1;
                assert(bold@ =~= s.subrange(i + 2, j as int));
            }
            // without a closing "**" the run takes the rest of the text
            let next = if j < len && j < len - 1 {
                j + 2
            } else {
                if j < len {
                    push_char(&mut bold, cs[j]);
                    j += 1;
                    assert(bold@ =~= s.subrange(i + 2, j as int));
                }
                j
            };
            push_styled(&mut spans, bold, InlineStyle::Bold);
            proof {
                assert(spans_view(spans@) + spans_from(s, next as int, seq![]) =~= before + spans_from(s, i as int, cur0));
            }
            i = next;
        } else if cs[i] == '*' {
            flush_into(&mut spans, &mut current);
            let (italic, j) = collect_until_char(&cs, i + 1, '*');
            let next = if j < len { j + 1 } else { j };
            push_styled(&mut spans, italic, InlineStyle::Italic);
            proof {
                lemma_char_close(s, i + 1, '*');
                assert(spans_view(spans@) + spans_from(s, next as int, seq![]) =~= before + spans_from(s, i as int, cur0));
            }
            i = next;
        } else if cs[i] == '`' {
            flush_into(&mut spans, &mut current);
            let (code, j) = collect_until_char(&cs, i + 1, '`');
            let next = if j < len { j + 1 } else { j };
            push_styled(&mut spans, code, InlineStyle::Code);
            proof {
                lemma_char_close(s, i + 1, '`');
                assert(spans_view(spans@) + spans_from(s, next as int, seq![]) =~= before + spans_from(s, i as int, cur0));
            }
            i = next;
        } else if cs[i] == '[' {
            let (link_text, j) = collect_until_char(&cs, i + 1, ']');
            proof {
                lemma_char_close(s, i + 1, ']');
            }
            if j < len && j < len - 1 && cs[j] == ']' && cs[j + 1] == '(' {
                let mut m = j + 2;
                proof {
                    lemma_char_close(s, j + 2, ')');
                }
                while m < len && cs[m] != ')'
                    invariant
                        cs@ == s,
                        len == s.len(),
                        j + 2 <= m <= len,
                        char_close(s, m as int, ')') == char_close(s, j + 2, ')'),
                    decreases len - m,
                {
                    m += 1;
                }
                let next = if m < len { m + 1 } else { m };
                flush_into(&mut spans, &mut current);
                spans.push(InlineSpan { text: link_text, style: InlineStyle::LinkText });
                proof {
                    assert(spans_view(spans@) =~= before + flush(cur0) + seq![(s.subrange(i + 1, j as int), InlineStyle::LinkText)]);
                    assert(spans_view(spans@) + spans_from(s, next as int, seq![]) =~= before + spans_from(s, i as int, cur0));
                }
                i = next;
            } else {
                push_char(&mut current, '[');
                current.append(link_text.as_str());
                proof {
                    assert(current@ =~= cur0 + seq!['['] + s.subrange(i + 1, j as int));
                }
                i = j;
            }
        } else {
            push_char(&mut current, cs[i]);
            i += 1;
        }
    }
    flush_into(&mut spans, &mut current);
    proof {
        assert(spans_view(spans@) =~= inline_spans(s));
    }
    spans
}


/// Whether a character opens inline markup.
pub open spec fn is_marker(c: char) -> bool {
    c == '*' || c == '`' || c == '['
}

/// The texts of spans, joined.
pub open spec fn joined(spans: Seq<(Seq<char>, InlineStyle)>) -> Seq<char>
    decreases spans.len(),
{
    if spans.len() == 0 {
        seq![]
    } else {
        joined(spans.drop_last()) + spans.last().0
    }
}

proof fn lemma_joined_concat(a: Seq<(Seq<char>, InlineStyle)>, b: Seq<(Seq<char>, InlineStyle)>)
    ensures
        joined(a + b) == joined(a) + joined(b),
    decreases b.len(),
{
    if b.len() == 0 {
        assert(a + b =~= a);
        assert(joined(a) + joined(b) =~= joined(a));
    } else {
        lemma_joined_concat(a, b.drop_last());
        assert((a + b).drop_last() =~= a + b.drop_last());
        assert(joined(a) + joined(b.drop_last()) + b.last().0 =~= joined(a) + (joined(
            b.drop_last(),
        ) + b.last().0));
    }
}

proof fn lemma_plain_from(s: Seq<char>, i: int, cur: Seq<char>)
    requires
        0 <= i <= s.len(),
        forall|k: int| 0 <= k < s.len() ==> !is_marker(#[trigger] s[k]),
    ensures
        spans_from(s, i, cur) == flush(cur + s.subrange(i, s.len() as int)),
    decreases s.len() - i,
{
    if i >= s.len() {
        assert(cur + s.subrange(i, s.len() as int) =~= cur);
    } else {
        assert(!is_marker(s[i]));
        lemma_plain_from(s, i + 1, cur.push(s[i]));
        assert(cur.push(s[i]) + s.subrange(i + 1, s.len() as int) =~= cur + s.subrange(
            i,
            s.len() as int,
        ));
    }
}

/// Text without markup characters comes back whole as one plain run (no
/// run at all when it is empty).
pub proof fn lemma_plain_line(s: Seq<char>)
    requires
        forall|k: int| 0 <= k < s.len() ==> !is_marker(#[trigger] s[k]),
    ensures
        inline_spans(s) == flush(s),
{
    lemma_plain_from(s, 0, seq![]);
    assert(seq![] + s.subrange(0, s.len() as int) =~= s);
}

proof fn lemma_flush_joined(cur: Seq<char>)
    ensures
        joined(flush(cur)) == cur,
{
    if cur.len() > 0 {
        assert(flush(cur).drop_last() =~= Seq::<(Seq<char>, InlineStyle)>::empty());
        assert(joined(Seq::<(Seq<char>, InlineStyle)>::empty()) == Seq::<char>::empty());
        assert(seq![] + cur =~= cur);
    }
}

proof fn lemma_styled_joined(t: Seq<char>, st: InlineStyle)
    ensures
        joined(styled(t, st)) == t,
{
    if t.len() > 0 {
        assert(styled(t, st).drop_last() =~= Seq::<(Seq<char>, InlineStyle)>::empty());
        assert(joined(Seq::<(Seq<char>, InlineStyle)>::empty()) == Seq::<char>::empty());
        assert(seq![] + t =~= t);
    } else {
        assert(t =~= seq![]);
    }
}

proof fn lemma_from_shorter(s: Seq<char>, i: int, cur: Seq<char>)
    requires
        0 <= i <= s.len(),
    ensures
        joined(spans_from(s, i, cur)).len() <= cur.len() + s.len() - i,
    decreases s.len() - i,
{
    if i >= s.len() {
        lemma_flush_joined(cur);
    } else if i + 1 < s.len() && s[i] == '*' && s[i + 1] == '*' {
        let j = bold_close(s, i + 2);
        let next = if j < s.len() { j + 2 } else { j };
        lemma_bold_close(s, i + 2);
        lemma_from_shorter(s, next, seq![]);
        lemma_joined_concat(flush(cur), styled(s.subrange(i + 2, j), InlineStyle::Bold));
        lemma_joined_concat(flush(cur) + styled(s.subrange(i + 2, j), InlineStyle::Bold), spans_from(s, next, seq![]));
        lemma_flush_joined(cur);
        lemma_styled_joined(s.subrange(i + 2, j), InlineStyle::Bold);
    } else if s[i] == '*' || s[i] == '`' {
        let c = s[i];
        let st = if c == '*' { InlineStyle::Italic } else { InlineStyle::Code };
        let j = char_close(s, i + 1, c);
        let next = if j < s.len() { j + 1 } else { j };
        lemma_char_close(s, i + 1, c);
        lemma_from_shorter(s, next, seq![]);
        lemma_joined_concat(flush(cur), styled(s.subrange(i + 1, j), st));
        lemma_joined_concat(flush(cur) + styled(s.subrange(i + 1, j), st), spans_from(s, next, seq![]));
        lemma_flush_joined(cur);
        lemma_styled_joined(s.subrange(i + 1, j), st);
    } else if s[i] == '[' {
        let j = char_close(s, i + 1, ']');
        lemma_char_close(s, i + 1, ']');
        if j + 1 < s.len() && s[j + 1] == '(' {
            let m = char_close(s, j + 2, ')');
            let next = if m < s.len() { m + 1 } else { m };
            lemma_char_close(s, j + 2, ')');
            let link = seq![(s.subrange(i + 1, j), InlineStyle::LinkText)];
            lemma_from_shorter(s, next, seq![]);
            lemma_joined_concat(flush(cur), link);
            lemma_joined_concat(flush(cur) + link, spans_from(s, next, seq![]));
            lemma_flush_joined(cur);
            assert(link.drop_last() =~= Seq::<(Seq<char>, InlineStyle)>::empty());
            assert(joined(Seq::<(Seq<char>, InlineStyle)>::empty()) == Seq::<char>::empty());
            assert(joined(link) =~= s.subrange(i + 1, j));
        } else {
            lemma_from_shorter(s, j, cur + seq!['['] + s.subrange(i + 1, j));
        }
    } else {
        lemma_from_shorter(s, i + 1, cur.push(s[i]));
    }
}

/// Parsing only takes markup away: the runs' texts, joined, are never
/// longer than the line.
pub proof fn lemma_spans_within(s: Seq<char>)
    ensures
        joined(inline_spans(s)).len() <= s.len(),
{
    lemma_from_shorter(s, 0, seq![]);
}

/// `f` places the characters of `a` in `b`, in order: `a` is `b` with
/// some characters left out.
pub open spec fn placed(a: Seq<char>, b: Seq<char>, f: spec_fn(int) -> int) -> bool {
    &&& forall|k: int| 0 <= k < a.len() ==> 0 <= #[trigger] f(k) < b.len() && b[f(k)] == a[k]
    &&& forall|k: int, l: int| 0 <= k < l < a.len() ==> #[trigger] f(k) < #[trigger] f(l)
}

/// `a` is `b` with some characters left out, the rest in their order.
pub open spec fn kept_in(a: Seq<char>, b: Seq<char>) -> bool {
    exists|f: spec_fn(int) -> int| placed(a, b, f)
}

proof fn lemma_kept_refl(a: Seq<char>)
    ensures
        kept_in(a, a),
{
    let f = |k: int| k;
    assert(placed(a, a, f));
}

proof fn lemma_kept_concat(a1: Seq<char>, b1: Seq<char>, a2: Seq<char>, b2: Seq<char>)
    requires
        kept_in(a1, b1),
        kept_in(a2, b2),
    ensures
        kept_in(a1 + a2, b1 + b2),
{
    let f1 = choose|f: spec_fn(int) -> int| placed(a1, b1, f);
    let f2 = choose|f: spec_fn(int) -> int| placed(a2, b2, f);
    let n1 = a1.len() as int;
    let m1 = b1.len() as int;
    let f = |k: int| if k < n1 { f1(k) } else { m1 + f2(k - n1) };
    let a = a1 + a2;
    let b = b1 + b2;
    assert forall|k: int| 0 <= k < a.len() implies 0 <= #[trigger] f(k) < b.len() && b[f(k)] == a[k] by {
        if k < n1 {
            assert(0 <= f1(k) < m1);
        } else {
            assert(0 <= f2(k - n1) < b2.len());
        }
    }
    assert forall|k: int, l: int| 0 <= k < l < a.len() implies #[trigger] f(k) < #[trigger] f(l) by {
        if l < n1 {
            assert(f1(k) < f1(l));
        } else if k < n1 {
            assert(f1(k) < m1);
            assert(0 <= f2(l - n1));
        } else {
            assert(f2(k - n1) < f2(l - n1));
        }
    }
    assert(placed(a, b, f));
}

/// A piece `s[a..j]` followed by text kept in `s[next..]` is kept in
/// `s[i..]`, after the same pending text `cur`.
proof fn lemma_kept_piece(s: Seq<char>, i: int, a: int, j: int, next: int, cur: Seq<char>, rest: Seq<char>)
    requires
        0 <= i <= a <= j <= next <= s.len(),
        kept_in(rest, s.subrange(next, s.len() as int)),
    ensures
        kept_in(cur + s.subrange(a, j) + rest, cur + s.subrange(i, s.len() as int)),
{
    let e = Seq::<char>::empty();
    let f = |k: int| k;
    assert(placed(e, s.subrange(i, a), f));
    lemma_kept_refl(s.subrange(a, j));
    lemma_kept_concat(e, s.subrange(i, a), s.subrange(a, j), s.subrange(a, j));
    assert(e + s.subrange(a, j) =~= s.subrange(a, j));
    assert(placed(e, s.subrange(j, next), f));
    lemma_kept_concat(e, s.subrange(j, next), rest, s.subrange(next, s.len() as int));
    assert(e + rest =~= rest);
    lemma_kept_concat(s.subrange(a, j), s.subrange(i, a) + s.subrange(a, j), rest, s.subrange(j, next)
        + s.subrange(next, s.len() as int));
    lemma_kept_refl(cur);
    lemma_kept_concat(cur, cur, s.subrange(a, j) + rest, s.subrange(i, a) + s.subrange(a, j) + (
    s.subrange(j, next) + s.subrange(next, s.len() as int)));
    assert(s.subrange(i, a) + s.subrange(a, j) + (s.subrange(j, next) + s.subrange(next, s.len() as int))
        =~= s.subrange(i, s.len() as int));
    assert(cur + (s.subrange(a, j) + rest) =~= cur + s.subrange(a, j) + rest);
}

proof fn lemma_from_kept(s: Seq<char>, i: int, cur: Seq<char>)
    requires
        0 <= i <= s.len(),
    ensures
        kept_in(joined(spans_from(s, i, cur)), cur + s.subrange(i, s.len() as int)),
    decreases s.len() - i,
{
    let len = s.len() as int;
    let e = Seq::<char>::empty();
    if i >= s.len() {
        lemma_flush_joined(cur);
        lemma_kept_refl(cur);
        assert(cur + s.subrange(i, len) =~= cur);
    } else if i + 1 < s.len() && s[i] == '*' && s[i + 1] == '*' {
        let j = bold_close(s, i + 2);
        let next = if j < s.len() { j + 2 } else { j };
        lemma_bold_close(s, i + 2);
        lemma_from_kept(s, next, e);
        assert(e + s.subrange(next, len) =~= s.subrange(next, len));
        lemma_joined_concat(flush(cur), styled(s.subrange(i + 2, j), InlineStyle::Bold));
        lemma_joined_concat(flush(cur) + styled(s.subrange(i + 2, j), InlineStyle::Bold), spans_from(s, next, e));
        lemma_flush_joined(cur);
        lemma_styled_joined(s.subrange(i + 2, j), InlineStyle::Bold);
        lemma_kept_piece(s, i, i + 2, j, next, cur, joined(spans_from(s, next, e)));
    } else if s[i] == '*' || s[i] == '`' {
        let c = s[i];
        let st = if c == '*' { InlineStyle::Italic } else { InlineStyle::Code };
        let j = char_close(s, i + 1, c);
        let next = if j < s.len() { j + 1 } else { j };
        lemma_char_close(s, i + 1, c);
        lemma_from_kept(s, next, e);
        assert(e + s.subrange(next, len) =~= s.subrange(next, len));
        lemma_joined_concat(flush(cur), styled(s.subrange(i + 1, j), st));
        lemma_joined_concat(flush(cur) + styled(s.subrange(i + 1, j), st), spans_from(s, next, e));
        lemma_flush_joined(cur);
        lemma_styled_joined(s.subrange(i + 1, j), st);
        lemma_kept_piece(s, i, i + 1, j, next, cur, joined(spans_from(s, next, e)));
    } else if s[i] == '[' {
        let j = char_close(s, i + 1, ']');
        lemma_char_close(s, i + 1, ']');
        if j + 1 < s.len() && s[j + 1] == '(' {
            let m = char_close(s, j + 2, ')');
            let next = if m < s.len() { m + 1 } else { m };
            lemma_char_close(s, j + 2, ')');
            let link = seq![(s.subrange(i + 1, j), InlineStyle::LinkText)];
            lemma_from_kept(s, next, e);
            assert(e + s.subrange(next, len) =~= s.subrange(next, len));
            lemma_joined_concat(flush(cur), link);
            lemma_joined_concat(flush(cur) + link, spans_from(s, next, e));
            lemma_flush_joined(cur);
            assert(link.drop_last() =~= Seq::<(Seq<char>, InlineStyle)>::empty());
            assert(joined(Seq::<(Seq<char>, InlineStyle)>::empty()) == Seq::<char>::empty());
            assert(joined(link) =~= s.subrange(i + 1, j));
            lemma_kept_piece(s, i, i + 1, j, next, cur, joined(spans_from(s, next, e)));
        } else {
            lemma_from_kept(s, j, cur + seq!['['] + s.subrange(i + 1, j));
            assert(cur + seq!['['] + s.subrange(i + 1, j) + s.subrange(j, len) =~= cur + s.subrange(i, len));
        }
    } else {
        lemma_from_kept(s, i + 1, cur.push(s[i]));
        assert(cur.push(s[i]) + s.subrange(i + 1, len) =~= cur + s.subrange(i, len));
    }
}

/// Parsing never adds or reorders a character: the runs' texts, joined,
/// are the line with some characters (markers, brackets, link targets) left
/// out.
pub proof fn lemma_spans_keep_order(s: Seq<char>)
    ensures
        kept_in(joined(inline_spans(s)), s),
{
    lemma_from_kept(s, 0, seq![]);
    assert(Seq::<char>::empty() + s.subrange(0, s.len() as int) =~= s);
}

/// Plain characters `s[i..e]` only add to the pending text.
proof fn lemma_plain_run(s: Seq<char>, i: int, e: int, cur: Seq<char>)
    requires
        0 <= i <= e <= s.len(),
        forall|k: int| i <= k < e ==> !is_marker(#[trigger] s[k]),
    ensures
        spans_from(s, i, cur) == spans_from(s, e, cur + s.subrange(i, e)),
    decreases e - i,
{
    if i == e {
        assert(cur + s.subrange(i, e) =~= cur);
    } else {
        assert(!is_marker(s[i]));
        lemma_plain_run(s, i + 1, e, cur.push(s[i]));
        assert(cur.push(s[i]) + s.subrange(i + 1, e) =~= cur + s.subrange(i, e));
    }
}

/// The search for `c` from `j` stops at `q` when `q` holds `c` and nothing
/// before it from `j` on does.
proof fn lemma_char_close_at(s: Seq<char>, j: int, q: int, c: char)
    requires
        0 <= j <= q < s.len(),
        s[q] == c,
        forall|k: int| j <= k < q ==> s[k] != c,
    ensures
        char_close(s, j, c) == q,
    decreases q - j,
{
    if j < q {
        lemma_char_close_at(s, j + 1, q, c);
    }
}

/// A link shows only its text: in a line `p[t](u)r`, where `p`, `t` and `r`
/// hold no markup and `t` no `]`, and the target `u` holds no `)`, the runs
/// are `p` (when not empty), the link text `t`, and `r` (when not empty);
/// nothing of the target or its parentheses shows.
pub proof fn lemma_link_shows_text(p: Seq<char>, t: Seq<char>, u: Seq<char>, r: Seq<char>)
    requires
        forall|k: int| 0 <= k < p.len() ==> !is_marker(#[trigger] p[k]),
        forall|k: int| 0 <= k < t.len() ==> !is_marker(#[trigger] t[k]) && t[k] != ']',
        forall|k: int| 0 <= k < u.len() ==> #[trigger] u[k] != ')',
        forall|k: int| 0 <= k < r.len() ==> !is_marker(#[trigger] r[k]),
    ensures
        inline_spans(p + seq!['['] + t + seq![']', '('] + u + seq![')'] + r) == flush(p) + seq![
            (t, InlineStyle::LinkText),
        ] + flush(r),
{
    let s = p + seq!['['] + t + seq![']', '('] + u + seq![')'] + r;
    let a = p.len() as int;
    let j = a + 1 + t.len();
    let m = j + 2 + u.len();
    let n = s.len() as int;
    assert(n == m + 1 + r.len());
    assert forall|k: int| 0 <= k < a implies !is_marker(#[trigger] s[k]) by {
        assert(s[k] == p[k]);
    }
    lemma_plain_run(s, 0, a, seq![]);
    assert(seq![] + s.subrange(0, a) =~= p);
    assert(s[a] == '[');
    assert forall|k: int| a + 1 <= k < j implies #[trigger] s[k] != ']' by {
        assert(s[k] == t[k - a - 1]);
    }
    assert(s[j] == ']');
    assert(s[j + 1] == '(');
    lemma_char_close_at(s, a + 1, j, ']');
    assert forall|k: int| j + 2 <= k < m implies #[trigger] s[k] != ')' by {
        assert(s[k] == u[k - j - 2]);
    }
    assert(s[m] == ')');
    lemma_char_close_at(s, j + 2, m, ')');
    assert(s.subrange(a + 1, j) =~= t);
    assert forall|k: int| m + 1 <= k < n implies !is_marker(#[trigger] s[k]) by {
        assert(s[k] == r[k - m - 1]);
    }
    lemma_plain_run(s, m + 1, n, seq![]);
    assert(seq![] + s.subrange(m + 1, n) =~= r);
    assert(spans_from(s, a, p) == flush(p) + seq![(t, InlineStyle::LinkText)] + spans_from(s, m + 1, seq![]));
}

} // verus!
