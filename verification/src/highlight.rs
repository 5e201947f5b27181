//! How the writing surface colours its text: the focus region that stays
//! bright, and, with Markdown highlighting on, the paint of each part of
//! each line. The caller turns paints into fonts and colours.
use vstd::prelude::*;
use vstd::utf8::*;
use vstd::string::*;
use crate::text::{chars_of, string_from_chars, safe_byte_pos, safe_pos, utf8_len, find_line_bounds, find_para_bounds, line_bounds, para_bounds};
use crate::markdown::{char_close, lemma_char_close};
use crate::stats::{trim_start, lead_hashes, trim_start_at, lemma_lead_hashes_sub, lemma_lead_ws_le, lemma_lead_hashes_le};
use crate::preview::starts_with;
use crate::settings::FocusMode;

verus! {

/// How a piece of text is painted.
#[derive(Clone, Copy, Debug, PartialEq, Eq, Structural)]
pub enum Paint {
    /// Ordinary text in focus.
    Bright,
    /// Text outside the focus region.
    Dim,
    /// Markdown markers: heading hashes, quote marks, rules.
    Marker,
    /// A code fence line, in the monospace font.
    MarkerMono,
    /// A line inside a code block, in the monospace font.
    Code,
    /// Heading text.
    Heading,
    /// Quoted text.
    Quote,
    /// A list bullet.
    Accent,
}

/// A piece of text and its paint.
#[derive(Debug)]
pub struct Piece {
    pub text: String,
    pub paint: Paint,
}

/// Pieces as values.
pub open spec fn pieces_view(v: Seq<Piece>) -> Seq<(Seq<char>, Paint)> {
    v.map_values(|p: Piece| (p.text@, p.paint))
}

/// The pieces of one line in focus or not, inside a code block or not, and
/// whether a code block is open after it.
pub open spec fn line_pieces(line: Seq<char>, in_focus: bool, in_code: bool) -> (Seq<(Seq<char>, Paint)>, bool) {
    let t = trim_start(line);
    let ind = line.len() - t.len();
    let lvl = lead_hashes(t);
    if !in_focus {
        (seq![(line, Paint::Dim)], in_code)
    } else if starts_with(t, seq!['`', '`', '`']) {
        (seq![(line, Paint::MarkerMono)], !in_code)
    } else if in_code {
        (seq![(line, Paint::Code)], in_code)
    } else if t.len() > 0 && t[0] == '#' {
        if lvl <= 6 {
            let me = ind + lvl + if t.len() > lvl && t[lvl as int] == ' ' { 1int } else { 0int };
            (seq![(line.take(me), Paint::Marker), (line.skip(me), Paint::Heading)], in_code)
        } else {
            (seq![(line, Paint::Bright)], in_code)
        }
    } else if starts_with(t, seq!['>', ' ']) {
        (seq![(line.take(ind + 2), Paint::Marker), (line.skip(ind + 2), Paint::Quote)], in_code)
    } else if t == seq!['-', '-', '-'] || t == seq!['*', '*', '*'] || t == seq!['_', '_', '_'] {
        (seq![(line, Paint::Marker)], in_code)
    } else if (starts_with(t, seq!['-', ' ']) || starts_with(t, seq!['*', ' '])) && t.len() > 2 {
        (seq![(line.take(ind + 2), Paint::Accent), (line.skip(ind + 2), Paint::Bright)], in_code)
    } else {
        (seq![(line, Paint::Bright)], in_code)
    }
}

/// The pieces of the lines of `s` from character `i` on (lines end at
/// `\n`; each newline is a piece of its own, bright when its line is in
/// focus). A line is in focus when focus mode is off or it overlaps the
/// characters `cfs..cfe`.
pub open spec fn pieces_from(s: Seq<char>, i: int, in_code: bool, on: bool, cfs: int, cfe: int) -> Seq<
    (Seq<char>, Paint),
>
    decreases s.len() - i,
{
    if i < 0 || i > s.len() {
        seq![]
    } else {
        let e = char_close(s, i, '\n');
        proof {
            lemma_char_close(s, i, '\n');
        }
        let in_focus = !on || (i < cfe && e > cfs);
        let lp = line_pieces(s.subrange(i, e), in_focus, in_code);
        if e < s.len() {
            lp.0 + seq![(seq!['\n'], if in_focus { Paint::Bright } else { Paint::Dim })] + pieces_from(
                s,
                e + 1,
                lp.1,
                on,
                cfs,
                cfe,
            )
        } else {
            lp.0
        }
    }
}

/// The painted pieces of the text `s`, with focus mode on or off over the
/// characters `cfs..cfe`, and Markdown highlighting on or off. Without
/// highlighting, the text is bright inside the focus region and dim
/// outside it.
pub open spec fn painted(s: Seq<char>, on: bool, cfs: int, cfe: int, syntax: bool) -> Seq<(Seq<char>, Paint)> {
    if s.len() == 0 {
        seq![(s, Paint::Bright)]
    } else if !syntax {
        if !on {
            seq![(s, Paint::Bright)]
        } else {
            (if cfs > 0 { seq![(s.take(cfs), Paint::Dim)] } else { seq![] }) + seq![
                (s.subrange(cfs, cfe), Paint::Bright),
            ] + if cfe < s.len() { seq![(s.skip(cfe), Paint::Dim)] } else { seq![] }
        }
    } else {
        pieces_from(s, 0, false, on, cfs, cfe)
    }
}

/// The texts of the pieces, one after another.
pub open spec fn joined(ps: Seq<(Seq<char>, Paint)>) -> Seq<char>
    decreases ps.len(),
{
    if ps.len() == 0 {
        seq![]
    } else {
        joined(ps.drop_last()) + ps.last().0
    }
}

proof fn lemma_joined_concat(a: Seq<(Seq<char>, Paint)>, b: Seq<(Seq<char>, Paint)>)
    ensures
        joined(a + b) == joined(a) + joined(b),
    decreases b.len(),
{
    if b.len() == 0 {
        assert(a + b =~= a);
        assert(joined(a) + seq![] =~= joined(a));
    } else {
        lemma_joined_concat(a, b.drop_last());
        assert((a + b).drop_last() =~= a + b.drop_last());
        assert(joined(a) + joined(b.drop_last()) + b.last().0 =~= joined(a) + (joined(b.drop_last()) + b.last().0));
    }
}

proof fn lemma_joined_one(x: (Seq<char>, Paint))
    ensures
        joined(seq![x]) == x.0,
{
    assert(seq![x].drop_last() =~= Seq::<(Seq<char>, Paint)>::empty());
    assert(seq![x].last() == x);
    assert(joined(Seq::<(Seq<char>, Paint)>::empty()) == Seq::<char>::empty());
    assert(Seq::<char>::empty() + x.0 =~= x.0);
}

/// The pieces of a line spell the line.
proof fn lemma_line_pieces_cover(line: Seq<char>, in_focus: bool, in_code: bool)
    ensures
        joined(line_pieces(line, in_focus, in_code).0) == line,
{
    let t = trim_start(line);
    let lp = line_pieces(line, in_focus, in_code).0;
    lemma_lead_ws_le(line);
    lemma_lead_hashes_le(t);
    if lp.len() == 1 {
        lemma_joined_one(lp[0]);
        assert(lp =~= seq![lp[0]]);
    } else {
        assert(lp.len() == 2);
        assert(lp =~= seq![lp[0]] + seq![lp[1]]);
        lemma_joined_concat(seq![lp[0]], seq![lp[1]]);
        lemma_joined_one(lp[0]);
        lemma_joined_one(lp[1]);
        let me = line.len() - t.len() + lead_hashes(t) + if t.len() > lead_hashes(t) && t[lead_hashes(t) as int] == ' ' { 1int } else { 0int };
        assert(0 <= me <= line.len());
        assert(line.take(me) + line.skip(me) =~= line);
        if t.len() >= 2 {
            assert(line.take(line.len() - t.len() + 2) + line.skip(line.len() - t.len() + 2) =~= line);
        }
        assert(lp[0].0 + lp[1].0 =~= line);
    }
}

/// The pieces from character `i` on spell the rest of the text.
proof fn lemma_pieces_from_cover(s: Seq<char>, i: int, in_code: bool, on: bool, cfs: int, cfe: int)
    requires
        0 <= i <= s.len(),
    ensures
        joined(pieces_from(s, i, in_code, on, cfs, cfe)) == s.skip(i),
    decreases s.len() - i,
{
    let e = char_close(s, i, '\n');
    lemma_char_close(s, i, '\n');
    let in_focus = !on || (i < cfe && e > cfs);
    let lp = line_pieces(s.subrange(i, e), in_focus, in_code);
    lemma_line_pieces_cover(s.subrange(i, e), in_focus, in_code);
    if e < s.len() {
        let nl = seq![(seq!['\n'], if in_focus { Paint::Bright } else { Paint::Dim })];
        let rest = pieces_from(s, e + 1, lp.1, on, cfs, cfe);
        lemma_pieces_from_cover(s, e + 1, lp.1, on, cfs, cfe);
        lemma_joined_concat(lp.0 + nl, rest);
        lemma_joined_concat(lp.0, nl);
        lemma_joined_one(nl[0]);
        assert(s.skip(i) =~= s.subrange(i, e) + seq!['\n'] + s.skip(e + 1));
    } else {
        assert(s.skip(i) =~= s.subrange(i, e));
    }
}

/// Painting never adds, drops or reorders text: the pieces spell the text
/// exactly, whatever the focus region and the highlighting.
pub proof fn lemma_painted_spells_text(s: Seq<char>, on: bool, cfs: int, cfe: int, syntax: bool)
    requires
        on ==> 0 <= cfs <= cfe <= s.len(),
    ensures
        joined(painted(s, on, cfs, cfe, syntax)) == s,
{
    let p = painted(s, on, cfs, cfe, syntax);
    if s.len() == 0 || (!syntax && !on) {
        lemma_joined_one((s, Paint::Bright));
    } else if !syntax {
        let a = if cfs > 0 { seq![(s.take(cfs), Paint::Dim)] } else { seq![] };
        let m = seq![(s.subrange(cfs, cfe), Paint::Bright)];
        let z = if cfe < s.len() { seq![(s.skip(cfe), Paint::Dim)] } else { seq![] };
        lemma_joined_concat(a + m, z);
        lemma_joined_concat(a, m);
        lemma_joined_one(m[0]);
        if cfs > 0 {
            lemma_joined_one(a[0]);
        }
        if cfe < s.len() {
            lemma_joined_one(z[0]);
        }
        assert(joined(a) + joined(m) + joined(z) =~= s);
    } else {
        lemma_pieces_from_cover(s, 0, false, on, cfs, cfe);
        assert(s.skip(0) =~= s);
    }
}

/// Number of leading characters of `s` whose UTF-8 bytes fit in `b` bytes.
pub open spec fn chars_within(s: Seq<char>, b: int) -> nat
    decreases s.len(),
{
    if s.len() == 0 {
        0
    } else {
        let w = encode_scalar(s[0] as u32).len();
        if w <= b { 1 + chars_within(s.drop_first(), b - w) } else { 0 }
    }
}

/// The focus region of `text` for a cursor at byte `cursor`: the whole text
/// when focus mode is off, else the line or paragraph holding the cursor.
pub open spec fn focus_region(text: &str, mode: FocusMode, cursor: int, start: int, end: int) -> bool {
    match mode {
        FocusMode::Off => start == 0 && end == text.spec_bytes().len(),
        FocusMode::Line => line_bounds(text, safe_pos(text, cursor), start, end),
        FocusMode::Paragraph => para_bounds(text, safe_pos(text, cursor), start, end),
    }
}

/// The byte bounds of the focus region.
pub fn focus_bounds(text: &str, mode: FocusMode, cursor: usize) -> (r: (usize, usize))
    ensures
        focus_region(text, mode, cursor as int, r.0 as int, r.1 as int),
{
    match mode {
        FocusMode::Off => (0, text.as_bytes().len()),
        FocusMode::Line => find_line_bounds(text, safe_byte_pos(text, cursor)),
        FocusMode::Paragraph => find_para_bounds(text, safe_byte_pos(text, cursor)),
    }
}

/// Number of leading characters of `cs` whose bytes fit in `b` bytes.
fn chars_within_exec(cs: &Vec<char>, b: usize) -> (n: usize)
    ensures
        n == chars_within(cs@, b as int),
        n <= cs@.len(),
{
    let mut i: usize = 0;
    let mut used: usize = 0;
    proof {
        assert(cs@.skip(0) =~= cs@);
    }
    while i < cs.len() && utf8_len(cs[i]) <= b - used
        invariant
            i <= cs@.len(),
            used <= b,
            chars_within(cs@, b as int) == i + chars_within(cs@.skip(i as int), b - used),
        decreases cs@.len() - i,
    {
        proof {
            assert(cs@.skip(i as int).drop_first() =~= cs@.skip(i + 1));
            assert(cs@.skip(i as int)[0] == cs@[i as int]);
        }
        used = used + utf8_len(cs[i]);
        i += 1;
    }
    proof {
        if i < cs@.len() {
            assert(cs@.skip(i as int)[0] == cs@[i as int]);
        } else {
            assert(cs@.skip(i as int) =~= Seq::<char>::empty());
        }
    }
    i
}

/// One piece.
fn piece(text: String, paint: Paint) -> (p: Piece)
    ensures
        (p.text@, p.paint) == (text@, paint),
{
    Piece { text, paint }
}

/// The pieces of the line `cs[a..e]`, and whether a code block is open after it.
fn line_pieces_of(cs: &Vec<char>, a: usize, e: usize, in_focus: bool, in_code: bool) -> (r: (Vec<Piece>, bool))
    requires
        a <= e <= cs.len(),
    ensures
        (pieces_view(r.0@), r.1) == line_pieces(cs@.subrange(a as int, e as int), in_focus, in_code),
{
    let ghost line = cs@.subrange(a as int, e as int);
    let mut v: Vec<Piece> = Vec::new();
    if !in_focus {
        v.push(piece(string_from_chars(cs, a, e), Paint::Dim));
        proof {
            assert(pieces_view(v@) =~= seq![(line, Paint::Dim)]);
        }
        return (v, in_code);
    }
    let t = trim_start_at(cs, a, e);
    let ghost ts = cs@.subrange(t as int, e as int);
    let ind = t - a;
    proof {
        assert(ts == trim_start(line));
        assert(ts.len() == e - t);
    }
    let n = e - t;
    let fence = n >= 3 && cs[t] == '`' && cs[t + 1] == '`' && cs[t + 2] == '`';
    proof {
        if n >= 3 {
            assert(ts[0] == cs@[t as int] && ts[1] == cs@[t + 1] && ts[2] == cs@[t + 2]);
            if fence {
                assert(ts.take(3) =~= seq!['`', '`', '`']);
            } else if starts_with(ts, seq!['`', '`', '`']) {
                assert(ts.take(3)[0] == ts[0] && ts.take(3)[1] == ts[1] && ts.take(3)[2] == ts[2]);
            }
        }
    }
    if fence {
        v.push(piece(string_from_chars(cs, a, e), Paint::MarkerMono));
        proof {
            assert(pieces_view(v@) =~= seq![(line, Paint::MarkerMono)]);
        }
        return (v, !in_code);
    }
    if in_code {
        v.push(piece(string_from_chars(cs, a, e), Paint::Code));
        proof {
            assert(pieces_view(v@) =~= seq![(line, Paint::Code)]);
        }
        return (v, in_code);
    }
    if n > 0 && cs[t] == '#' {
        let mut h = t;
        while h < e && cs[h] == '#'
            invariant
                t <= h <= e <= cs.len(),
                forall|u: int| t <= u < h ==> #[trigger] cs@[u] == '#',
            decreases e - h,
        {
            h += 1;
        }
        proof {
            lemma_lead_hashes_sub(cs@, t as int, e as int, h as int);
        }
        let lvl = h - t;
        if lvl <= 6 {
            let sp: usize = if h < e && cs[h] == ' ' { 1 } else { 0 };
            let me = a + ind + lvl + sp;
            proof {
                if h < e {
                    assert(ts[lvl as int] == cs@[h as int]);
                }
                assert(line.take(me - a) =~= cs@.subrange(a as int, me as int));
                assert(line.skip(me - a) =~= cs@.subrange(me as int, e as int));
            }
            v.push(piece(string_from_chars(cs, a, me), Paint::Marker));
            v.push(piece(string_from_chars(cs, me, e), Paint::Heading));
            proof {
                assert(pieces_view(v@) =~= seq![(line.take(me - a), Paint::Marker), (line.skip(me - a), Paint::Heading)]);
            }
        } else {
            v.push(piece(string_from_chars(cs, a, e), Paint::Bright));
            proof {
                assert(pieces_view(v@) =~= seq![(line, Paint::Bright)]);
            }
        }
        return (v, in_code);
    }
    let two = n >= 2 && cs[t + 1] == ' ';
    let quote = two && cs[t] == '>';
    proof {
        if n >= 2 {
            assert(ts[0] == cs@[t as int] && ts[1] == cs@[t + 1]);
            assert(ts.take(2)[0] == ts[0] && ts.take(2)[1] == ts[1]);
            if two {
                assert(ts.take(2) =~= seq![cs@[t as int], ' ']);
            }
            assert(line.take(ind + 2) =~= cs@.subrange(a as int, t + 2));
            assert(line.skip(ind + 2) =~= cs@.subrange(t + 2, e as int));
        }
    }
    if quote {
        v.push(piece(string_from_chars(cs, a, t + 2), Paint::Marker));
        v.push(piece(string_from_chars(cs, t + 2, e), Paint::Quote));
        proof {
            assert(pieces_view(v@) =~= seq![(line.take(ind + 2), Paint::Marker), (line.skip(ind + 2), Paint::Quote)]);
        }
        return (v, in_code);
    }
    let rule = n == 3 && ((cs[t] == '-' && cs[t + 1] == '-' && cs[t + 2] == '-') || (cs[t] == '*' && cs[t + 1] == '*'
        && cs[t + 2] == '*') || (cs[t] == '_' && cs[t + 1] == '_' && cs[t + 2] == '_'));
    proof {
        if n == 3 {
            assert(ts[0] == cs@[t as int] && ts[1] == cs@[t + 1] && ts[2] == cs@[t + 2]);
            if rule {
                assert(ts =~= seq![cs@[t as int], cs@[t + 1], cs@[t + 2]]);
            }
        }
    }
    if rule {
        v.push(piece(string_from_chars(cs, a, e), Paint::Marker));
        proof {
            assert(pieces_view(v@) =~= seq![(line, Paint::Marker)]);
        }
        return (v, in_code);
    }
    if two && (cs[t] == '-' || cs[t] == '*') && n > 2 {
        v.push(piece(string_from_chars(cs, a, t + 2), Paint::Accent));
        v.push(piece(string_from_chars(cs, t + 2, e), Paint::Bright));
        proof {
            assert(pieces_view(v@) =~= seq![(line.take(ind + 2), Paint::Accent), (line.skip(ind + 2), Paint::Bright)]);
        }
        return (v, in_code);
    }
    v.push(piece(string_from_chars(cs, a, e), Paint::Bright));
    proof {
        assert(pieces_view(v@) =~= seq![(line, Paint::Bright)]);
    }
    (v, in_code)
}

/// The pieces of every line, with Markdown highlighting.
fn highlighted_lines(cs: &Vec<char>, on: bool, cfs: usize, cfe: usize) -> (r: Vec<Piece>)
    ensures
        pieces_view(r@) == pieces_from(cs@, 0, false, on, cfs as int, cfe as int),
{
    let ghost s = cs@;
    let mut out: Vec<Piece> = Vec::new();
    let mut in_code = false;
    let mut i: usize = 0;
    proof {
        assert(pieces_view(out@) + pieces_from(s, 0, false, on, cfs as int, cfe as int) =~= pieces_from(s, 0, false, on, cfs as int, cfe as int));
    }
    loop
        invariant
            s == cs@,
            i <= s.len(),
            pieces_view(out@) + pieces_from(s, i as int, in_code, on, cfs as int, cfe as int)
                == pieces_from(s, 0, false, on, cfs as int, cfe as int),
        decreases s.len() - i,
    {
        let mut e = i;
        proof {
            lemma_char_close(s, i as int, '\n');
        }
        while e < cs.len() && cs[e] != '\n'
            invariant
                s == cs@,
                i <= e <= s.len(),
                char_close(s, e as int, '\n') == char_close(s, i as int, '\n'),
            decreases s.len() - e,
        {
            e += 1;
        }
        let in_focus = !on || (i < cfe && e > cfs);
        let ghost before = pieces_view(out@);
        let (lp, next_code) = line_pieces_of(cs, i, e, in_focus, in_code);
        let ghost lpv = pieces_view(lp@);
        let mut lp = lp;
        let ghost outv = pieces_view(out@);
        out.append(&mut lp);
        proof {
            assert(pieces_view(out@) =~= outv + lpv);
        }
        if e < cs.len() {
            let ghost mid = pieces_view(out@);
            let nl_paint = if in_focus { Paint::Bright } else { Paint::Dim };
            let nl = "\n".to_owned();
            proof {
                reveal_strlit("\n");
                assert(nl@ =~= seq!['\n']);
            }
            out.push(piece(nl, nl_paint));
            proof {
                assert(pieces_view(out@) =~= mid.push((seq!['\n'], nl_paint)));
                assert(pieces_view(out@) + pieces_from(s, e + 1, next_code, on, cfs as int, cfe as int) =~= before
                    + pieces_from(s, i as int, in_code, on, cfs as int, cfe as int));
            }
            in_code = next_code;
            i = e + 1;
        } else {
            proof {
                assert(pieces_view(out@) =~= before + pieces_from(s, i as int, in_code, on, cfs as int, cfe as int));
            }
            return out;
        }
    }
}

/// The painted pieces of `text`, with focus mode on or off over the bytes
/// `fs..fe` (taken as the characters that fit before each), and Markdown
/// highlighting on or off.
pub fn paint_text(text: &str, on: bool, fs: usize, fe: usize, syntax: bool) -> (r: Vec<Piece>)
    requires
        on ==> fs <= fe <= text.spec_bytes().len(),
    ensures
        pieces_view(r@) == painted(
            text@,
            on,
            chars_within(text@, fs as int) as int,
            chars_within(text@, fe as int) as int,
            syntax,
        ),
{
    let cs = chars_of(text);
    let cfs = chars_within_exec(&cs, fs);
    let cfe = chars_within_exec(&cs, fe);
    let mut v: Vec<Piece> = Vec::new();
    if cs.len() == 0 {
        v.push(piece(String::new(), Paint::Bright));
        proof {
            assert(text@ =~= Seq::<char>::empty());
            assert(pieces_view(v@) =~= seq![(text@, Paint::Bright)]);
        }
        return v;
    }
    if syntax {
        return highlighted_lines(&cs, on, cfs, cfe);
    }
    if !on {
        v.push(piece(text.to_owned(), Paint::Bright));
        proof {
            assert(pieces_view(v@) =~= seq![(text@, Paint::Bright)]);
        }
        return v;
    }
    proof {
        lemma_chars_within_mono(cs@, fs as int, fe as int);
    }
    let ghost s = cs@;
    if cfs > 0 {
        v.push(piece(string_from_chars(&cs, 0, cfs), Paint::Dim));
    }
    v.push(piece(string_from_chars(&cs, cfs, cfe), Paint::Bright));
    if cfe < cs.len() {
        v.push(piece(string_from_chars(&cs, cfe, cs.len()), Paint::Dim));
    }
    proof {
        assert(s.take(cfs as int) =~= s.subrange(0, cfs as int));
        assert(s.skip(cfe as int) =~= s.subrange(cfe as int, s.len() as int));
        assert(pieces_view(v@) =~= painted(s, on, cfs as int, cfe as int, syntax));
    }
    v
}

/// Fitting more bytes never fits fewer characters.
proof fn lemma_chars_within_mono(s: Seq<char>, a: int, b: int)
    requires
        a <= b,
    ensures
        chars_within(s, a) <= chars_within(s, b),
    decreases s.len(),
{
    if s.len() > 0 {
        let w = encode_scalar(s[0] as u32).len() as int;
        if w <= a {
            lemma_chars_within_mono(s.drop_first(), a - w, b - w);
        }
    }
}

/// The painted pieces of the writing surface: the focus region of the
/// cursor at byte `cursor` under focus mode `mode`, and Markdown
/// highlighting on or off.
pub fn layout_pieces(text: &str, mode: FocusMode, cursor: usize, syntax: bool) -> (r: Vec<Piece>)
    ensures
        exists|fs: int, fe: int|
            focus_region(text, mode, cursor as int, fs, fe) && pieces_view(r@) == painted(
                text@,
                mode != FocusMode::Off,
                chars_within(text@, fs) as int,
                chars_within(text@, fe) as int,
                syntax,
            ),
{
    let (fs, fe) = focus_bounds(text, mode, cursor);
    let on = match mode {
        FocusMode::Off => false,
        _ => true,
    };
    let r = paint_text(text, on, fs, fe, syntax);
    proof {
        assert(focus_region(text, mode, cursor as int, fs as int, fe as int));
    }
    r
}

/// With highlighting on, a list item in focus outside code blocks shows
/// its indentation and bullet (`- ` or `* `, both alike) in the accent
/// paint and the rest bright.
pub proof fn lemma_bullet_paint(line: Seq<char>, m: char, x: Seq<char>)
    requires
        m == '-' || m == '*',
        x.len() > 0,
        trim_start(line) == seq![m, ' '] + x,
    ensures
        ({
            let ind = line.len() - x.len() - 2;
            line_pieces(line, true, false) == (
                seq![(line.take(ind + 2), Paint::Accent), (line.skip(ind + 2), Paint::Bright)],
                false,
            )
        }),
{
    let t = trim_start(line);
    assert(t[0] == m && t[1] == ' ');
    assert(t.take(2) =~= seq![m, ' ']);
    assert(!starts_with(t, seq!['`', '`', '`'])) by {
        if starts_with(t, seq!['`', '`', '`']) {
            assert(t.take(3)[0] == '`');
        }
    }
    assert(!starts_with(t, seq!['>', ' '])) by {
        if starts_with(t, seq!['>', ' ']) {
            assert(t.take(2)[0] == '>');
        }
    }
    assert(t != seq!['-', '-', '-'] && t != seq!['*', '*', '*'] && t != seq!['_', '_', '_']) by {
        if t.len() == 3 {
            assert(t[1] == ' ');
        }
    }
}

/// With focus mode off and highlighting on, a text of one line is painted
/// as that line's pieces.
pub proof fn lemma_one_line_paint(s: Seq<char>, cfs: int, cfe: int)
    requires
        s.len() > 0,
        forall|k: int| 0 <= k < s.len() ==> s[k] != '\n',
    ensures
        painted(s, false, cfs, cfe, true) == line_pieces(s, true, false).0,
{
    lemma_char_close(s, 0, '\n');
    assert(char_close(s, 0, '\n') == s.len());
    assert(s.subrange(0, s.len() as int) =~= s);
}

} // verus!
