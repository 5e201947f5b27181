//! The Markdown preview: how the lines of a document are grouped into the
//! blocks the preview draws (headings, rules, quotes, lists, code blocks,
//! paragraphs). Drawing them is left to the caller.
use vstd::prelude::*;
use crate::text::{chars_of, string_from_chars};
use crate::stats::{lines_of, line_ranges, trim, lead_hashes, trim_range, lemma_lead_hashes_sub};
use crate::writer::{join_lines, join_with_newlines, strings_view};

verus! {

/// The kinds of preview blocks.
#[derive(Clone, Copy, Debug, PartialEq, Eq, Structural)]
pub enum BlockKind {
    Code,
    Heading,
    Rule,
    Quote,
    Bullet,
    Numbered,
    Blank,
    Paragraph,
}

/// One block of the preview: its kind, the heading level (zero for other
/// kinds), its text, and the number marker of a numbered item (empty for
/// other kinds).
#[derive(Debug)]
pub struct Block {
    pub kind: BlockKind,
    pub level: usize,
    pub text: String,
    pub marker: String,
}

/// A block as values.
pub open spec fn block_view(b: Block) -> (BlockKind, nat, Seq<char>, Seq<char>) {
    (b.kind, b.level as nat, b.text@, b.marker@)
}

/// The blocks as values.
pub open spec fn blocks_view(v: Seq<Block>) -> Seq<(BlockKind, nat, Seq<char>, Seq<char>)> {
    v.map_values(|b: Block| block_view(b))
}

/// Whether `s` starts with `p`.
pub open spec fn starts_with(s: Seq<char>, p: Seq<char>) -> bool {
    p.len() <= s.len() && s.take(p.len() as int) == p
}

/// The first position, from `i` on, of `. ` in `t`; `-1` when there is none.
pub open spec fn dot_space_from(t: Seq<char>, i: int) -> int
    decreases t.len() - i,
{
    if i < 0 || i + 1 >= t.len() {
        -1
    } else if t[i] == '.' && t[i + 1] == ' ' {
        i
    } else {
        dot_space_from(t, i + 1)
    }
}

/// Whether the first `d` characters of `t` are ASCII digits.
pub open spec fn digits_before(t: Seq<char>, d: int) -> bool {
    forall|i: int| 0 <= i < d ==> '0' <= #[trigger] t[i] <= '9'
}

/// A line that opens or closes a code block: it starts, once trimmed, with
/// three backticks.
pub open spec fn is_fence(line: Seq<char>) -> bool {
    starts_with(trim(line), seq!['`', '`', '`'])
}

/// The heading a trimmed line declares: one to six `#` (more count as
/// six) and a non-empty rest.
pub open spec fn heading_block(t: Seq<char>) -> Option<(BlockKind, nat, Seq<char>, Seq<char>)> {
    let h = lead_hashes(t);
    let lvl: nat = if h < 6 { h } else { 6 };
    if t.len() > 0 && t[0] == '#' && trim(t.skip(lvl as int)).len() > 0 {
        Some((BlockKind::Heading, lvl, trim(t.skip(lvl as int)), seq![]))
    } else {
        None
    }
}

/// The rule, quote or bullet a trimmed line marks.
pub open spec fn marked_block(t: Seq<char>) -> Option<(BlockKind, nat, Seq<char>, Seq<char>)> {
    if t == seq!['-', '-', '-'] || t == seq!['*', '*', '*'] || t == seq!['_', '_', '_'] {
        Some((BlockKind::Rule, 0, seq![], seq![]))
    } else if starts_with(t, seq!['>', ' ']) {
        Some((BlockKind::Quote, 0, t.skip(2), seq![]))
    } else if (starts_with(t, seq!['-', ' ']) || starts_with(t, seq!['*', ' '])) && t.len() > 2 {
        Some((BlockKind::Bullet, 0, t.skip(2), seq![]))
    } else {
        None
    }
}

/// The numbered item a trimmed line starts: at most three digits before
/// its first `. `.
pub open spec fn numbered_block(t: Seq<char>) -> Option<(BlockKind, nat, Seq<char>, Seq<char>)> {
    let d = dot_space_from(t, 0);
    if 0 <= d <= 3 && digits_before(t, d) {
        Some((BlockKind::Numbered, 0, t.skip(d + 2), t.take(d + 1)))
    } else {
        None
    }
}

/// The block a line outside code blocks makes: a heading, a rule, quote or
/// bullet, a numbered item, a blank line, or else a paragraph of the whole
/// line.
pub open spec fn block_of(line: Seq<char>) -> (BlockKind, nat, Seq<char>, Seq<char>) {
    let t = trim(line);
    match heading_block(t) {
        Some(b) => b,
        None => match marked_block(t) {
            Some(b) => b,
            None => match numbered_block(t) {
                Some(b) => b,
                None => if t.len() == 0 {
                    (BlockKind::Blank, 0, seq![], seq![])
                } else {
                    (BlockKind::Paragraph, 0, line, seq![])
                },
            },
        },
    }
}

/// The blocks of the lines `ls[k..]`, inside a code block or not, with the
/// code lines gathered so far. A fence line closes an open code block
/// (which shows even when empty) or opens one; at the end, an open code
/// block shows when it holds a line.
pub open spec fn blocks_from(
    ls: Seq<Seq<char>>,
    k: int,
    in_code: bool,
    code: Seq<Seq<char>>,
) -> Seq<(BlockKind, nat, Seq<char>, Seq<char>)>
    decreases ls.len() - k,
{
    if k < 0 || k >= ls.len() {
        if in_code && code.len() > 0 {
            seq![(BlockKind::Code, 0, join_lines(code), seq![])]
        } else {
            seq![]
        }
    } else if is_fence(ls[k]) {
        if in_code {
            seq![(BlockKind::Code, 0nat, join_lines(code), Seq::<char>::empty())] + blocks_from(
                ls,
                k + 1,
                false,
                seq![],
            )
        } else {
            blocks_from(ls, k + 1, true, code)
        }
    } else if in_code {
        blocks_from(ls, k + 1, true, code.push(ls[k]))
    } else {
        seq![block_of(ls[k])] + blocks_from(ls, k + 1, false, code)
    }
}

/// The preview blocks of a document.
pub open spec fn spec_preview(s: Seq<char>) -> Seq<(BlockKind, nat, Seq<char>, Seq<char>)> {
    blocks_from(lines_of(s), 0, false, seq![])
}

/// A block without a level or marker.
fn plain_block(kind: BlockKind, text: String) -> (b: Block)
    ensures
        block_view(b) == (kind, 0nat, text@, Seq::<char>::empty()),
{
    Block { kind, level: 0, text, marker: String::new() }
}

/// Whether `cs[s..e]` starts with `p`.
fn starts_with_at(cs: &Vec<char>, s: usize, e: usize, p: &[char]) -> (r: bool)
    requires
        s <= e <= cs.len(),
    ensures
        r == starts_with(cs@.subrange(s as int, e as int), p@),
{
    let t = Ghost(cs@.subrange(s as int, e as int));
    if p.len() > e - s {
        return false;
    }
    let mut i: usize = 0;
    while i < p.len()
        invariant
            s <= e <= cs.len(),
            p@.len() <= e - s,
            t@ == cs@.subrange(s as int, e as int),
            i <= p@.len(),
            forall|j: int| 0 <= j < i ==> t@[j] == p@[j],
        decreases p@.len() - i,
    {
        if cs[s + i] != p[i] {
            proof {
                assert(t@.take(p@.len() as int)[i as int] != p@[i as int]);
            }
            return false;
        }
        i += 1;
    }
    proof {
        assert(t@.take(p@.len() as int) =~= p@);
    }
    true
}

/// The heading the trimmed line `cs[s..e]` declares.
fn heading_at(cs: &Vec<char>, s: usize, e: usize) -> (r: Option<Block>)
    requires
        s <= e <= cs.len(),
    ensures
        match heading_block(cs@.subrange(s as int, e as int)) {
            Some(v) => r matches Some(b) && block_view(b) == v,
            None => r is None,
        },
{
    let ghost t = cs@.subrange(s as int, e as int);
    let mut h = s;
    while h < e && cs[h] == '#'
        invariant
            s <= h <= e <= cs.len(),
            forall|u: int| s <= u < h ==> #[trigger] cs@[u] == '#',
        decreases e - h,
    {
        h += 1;
    }
    proof {
        lemma_lead_hashes_sub(cs@, s as int, e as int, h as int);
    }
    let lvl: usize = if h - s < 6 { h - s } else { 6 };
    let (rs, re) = trim_range(cs, s + lvl, e);
    proof {
        assert(t.skip(lvl as int) =~= cs@.subrange(s + lvl, e as int));
    }
    if e > s && cs[s] == '#' && re > rs {
        Some(Block { kind: BlockKind::Heading, level: lvl, text: string_from_chars(cs, rs, re), marker: String::new() })
    } else {
        None
    }
}

/// The rule, quote or bullet the trimmed line `cs[s..e]` marks.
fn marked_at(cs: &Vec<char>, s: usize, e: usize) -> (r: Option<Block>)
    requires
        s <= e <= cs.len(),
    ensures
        match marked_block(cs@.subrange(s as int, e as int)) {
            Some(v) => r matches Some(b) && block_view(b) == v,
            None => r is None,
        },
{
    let ghost t = cs@.subrange(s as int, e as int);
    let n = e - s;
    let rule = n == 3 && ((cs[s] == '-' && cs[s + 1] == '-' && cs[s + 2] == '-') || (cs[s] == '*' && cs[s + 1] == '*'
        && cs[s + 2] == '*') || (cs[s] == '_' && cs[s + 1] == '_' && cs[s + 2] == '_'));
    proof {
        if n == 3 {
            assert(t[0] == cs@[s as int] && t[1] == cs@[s + 1] && t[2] == cs@[s + 2]);
            if rule {
                assert(t =~= seq![cs@[s as int], cs@[s + 1], cs@[s + 2]]);
            }
        }
    }
    if rule {
        return Some(plain_block(BlockKind::Rule, String::new()));
    }
    proof {
        if n >= 2 {
            assert(t.skip(2) =~= cs@.subrange(s + 2, e as int));
        }
    }
    if starts_with_at(cs, s, e, &['>', ' ']) {
        return Some(plain_block(BlockKind::Quote, string_from_chars(cs, s + 2, e)));
    }
    if (starts_with_at(cs, s, e, &['-', ' ']) || starts_with_at(cs, s, e, &['*', ' '])) && n > 2 {
        return Some(plain_block(BlockKind::Bullet, string_from_chars(cs, s + 2, e)));
    }
    None
}

/// The numbered item the trimmed line `cs[s..e]` starts.
fn numbered_at(cs: &Vec<char>, s: usize, e: usize) -> (r: Option<Block>)
    requires
        s <= e <= cs.len(),
    ensures
        match numbered_block(cs@.subrange(s as int, e as int)) {
            Some(v) => r matches Some(b) && block_view(b) == v,
            None => r is None,
        },
{
    let ghost t = cs@.subrange(s as int, e as int);
    let mut d = s;
    while e - d > 1 && !(cs[d] == '.' && cs[d + 1] == ' ')
        invariant
            s <= d <= e <= cs.len(),
            t == cs@.subrange(s as int, e as int),
            dot_space_from(t, (d - s) as int) == dot_space_from(t, 0),
        decreases e - d,
    {
        proof {
            assert(t[d - s] == cs@[d as int] && t[d - s + 1] == cs@[d + 1]);
        }
        d += 1;
    }
    proof {
        if e - d > 1 {
            assert(t[d - s] == cs@[d as int] && t[d - s + 1] == cs@[d + 1]);
        }
    }
    if e - d > 1 && d - s <= 3 {
        let mut i = s;
        while i < d && '0' <= cs[i] && cs[i] <= '9'
            invariant
                s <= i <= d < e <= cs.len(),
                forall|u: int| s <= u < i ==> '0' <= #[trigger] cs@[u] <= '9',
            decreases d - i,
        {
            i += 1;
        }
        if i == d {
            proof {
                assert forall|j: int| 0 <= j < d - s implies '0' <= #[trigger] t[j] <= '9' by {
                    assert(t[j] == cs@[s + j]);
                }
                assert(t.skip(d - s + 2) =~= cs@.subrange(d + 2, e as int));
                assert(t.take(d - s + 1) =~= cs@.subrange(s as int, d + 1));
            }
            return Some(Block {
                kind: BlockKind::Numbered,
                level: 0,
                text: string_from_chars(cs, d + 2, e),
                marker: string_from_chars(cs, s, d + 1),
            });
        }
        proof {
            assert(t[i - s] == cs@[i as int]);
        }
    }
    None
}

/// The block of the line `cs[a..b]`, outside code blocks.
fn line_block(cs: &Vec<char>, a: usize, b: usize) -> (r: Block)
    requires
        a <= b <= cs.len(),
    ensures
        block_view(r) == block_of(cs@.subrange(a as int, b as int)),
{
    let (s, e) = trim_range(cs, a, b);
    match heading_at(cs, s, e) {
        Some(h) => h,
        None => match marked_at(cs, s, e) {
            Some(m) => m,
            None => match numbered_at(cs, s, e) {
                Some(n) => n,
                None => if e == s {
                    plain_block(BlockKind::Blank, String::new())
                } else {
                    plain_block(BlockKind::Paragraph, string_from_chars(cs, a, b))
                },
            },
        },
    }
}

/// The preview blocks of `text`.
pub fn preview_blocks(text: &str) -> (r: Vec<Block>)
    ensures
        blocks_view(r@) == spec_preview(text@),
{
    let cs = chars_of(text);
    let lines = line_ranges(&cs);
    let ghost s = text@;
    let ghost ls = lines_of(s);
    let mut out: Vec<Block> = Vec::new();
    let mut code: Vec<String> = Vec::new();
    let mut in_code = false;
    let mut k: usize = 0;
    proof {
        assert(blocks_view(out@) =~= Seq::<(BlockKind, nat, Seq<char>, Seq<char>)>::empty());
        assert(strings_view(code@) =~= Seq::<Seq<char>>::empty());
        assert(blocks_view(out@) + spec_preview(s) =~= spec_preview(s));
    }
    while k < lines.len()
        invariant
            cs@ == s,
            s == text@,
            ls == lines_of(s),
            lines@.len() == ls.len(),
            forall|q: int|
                #![trigger lines@[q]]
                0 <= q < lines@.len() ==> lines@[q].0 <= lines@[q].1 <= s.len() && s.subrange(
                    lines@[q].0 as int,
                    lines@[q].1 as int,
                ) == ls[q],
            k <= lines@.len(),
            blocks_view(out@) + blocks_from(ls, k as int, in_code, strings_view(code@)) == spec_preview(s),
        decreases lines@.len() - k,
    {
        let (a, b) = lines[k];
        let ghost before = blocks_view(out@);
        let ghost cv = strings_view(code@);
        proof {
            assert(s.subrange(a as int, b as int) == ls[k as int]);
        }
        let (ts, te) = trim_range(&cs, a, b);
        let fence = starts_with_at(&cs, ts, te, &['`', '`', '`']);
        if fence {
            if in_code {
                let joined = join_with_newlines(&code);
                out.push(plain_block(BlockKind::Code, joined));
                code = Vec::new();
                proof {
                    assert(blocks_view(out@) =~= before.push((BlockKind::Code, 0nat, join_lines(cv), Seq::<char>::empty())));
                    assert(strings_view(code@) =~= Seq::<Seq<char>>::empty());
                }
            }
            in_code = !in_code;
        } else if in_code {
            code.push(string_from_chars(&cs, a, b));
            proof {
                assert(strings_view(code@) =~= cv.push(ls[k as int]));
            }
        } else {
            out.push(line_block(&cs, a, b));
            proof {
                assert(blocks_view(out@) =~= before.push(block_of(ls[k as int])));
            }
        }
        k += 1;
    }
    if in_code && code.len() > 0 {
        let ghost before = blocks_view(out@);
        let joined = join_with_newlines(&code);
        out.push(plain_block(BlockKind::Code, joined));
        proof {
            assert(blocks_view(out@) =~= before.push((BlockKind::Code, 0nat, join_lines(strings_view(code@)), Seq::<char>::empty())));
        }
    }
    proof {
        assert(blocks_view(out@) =~= spec_preview(s));
    }
    out
}

/// A quote shows its text without the marker: a line that reads, once
/// trimmed, `> x` is the quote `x`.
pub proof fn lemma_quote_block(line: Seq<char>, x: Seq<char>)
    requires
        trim(line) == seq!['>', ' '] + x,
    ensures
        block_of(line) == (BlockKind::Quote, 0nat, x, Seq::<char>::empty()),
{
    let t = trim(line);
    assert(t[0] == '>');
    assert(t.len() >= 2);
    assert(t.take(2) =~= seq!['>', ' ']);
    assert(t.skip(2) =~= x);
    assert(t != seq!['-', '-', '-'] && t != seq!['*', '*', '*'] && t != seq!['_', '_', '_']) by {
        if t.len() == 3 {
            assert(t[1] == ' ');
        }
    }
}

/// A list item shows its text without the bullet: a line that reads, once
/// trimmed, `- x` or `* x` with `x` not empty is the bullet item `x`, both
/// bullets alike.
pub proof fn lemma_bullet_block(line: Seq<char>, m: char, x: Seq<char>)
    requires
        m == '-' || m == '*',
        x.len() > 0,
        trim(line) == seq![m, ' '] + x,
    ensures
        block_of(line) == (BlockKind::Bullet, 0nat, x, Seq::<char>::empty()),
{
    let t = trim(line);
    assert(t[0] == m && t[1] == ' ');
    assert(t.take(2) =~= seq![m, ' ']);
    assert(t.skip(2) =~= x);
    assert(t != seq!['-', '-', '-'] && t != seq!['*', '*', '*'] && t != seq!['_', '_', '_']) by {
        if t.len() == 3 {
            assert(t[1] == ' ');
        }
    }
    assert(!starts_with(t, seq!['>', ' '])) by {
        if starts_with(t, seq!['>', ' ']) {
            assert(t.take(2)[0] == '>');
        }
    }
}

proof fn lemma_blocks_no_fence(ls: Seq<Seq<char>>, k: int)
    requires
        0 <= k <= ls.len(),
        forall|i: int| 0 <= i < ls.len() ==> !is_fence(#[trigger] ls[i]),
    ensures
        blocks_from(ls, k, false, seq![]) == ls.skip(k).map_values(|l: Seq<char>| block_of(l)),
    decreases ls.len() - k,
{
    if k == ls.len() {
        assert(ls.skip(k).map_values(|l: Seq<char>| block_of(l)) =~= Seq::<(BlockKind, nat, Seq<char>, Seq<char>)>::empty());
    } else {
        assert(!is_fence(ls[k]));
        lemma_blocks_no_fence(ls, k + 1);
        assert(ls.skip(k).map_values(|l: Seq<char>| block_of(l)) =~= seq![block_of(ls[k])] + ls.skip(k + 1).map_values(
            |l: Seq<char>| block_of(l),
        ));
    }
}

/// Outside code blocks each line makes one block of its own: a document
/// without fence lines previews as the blocks of its lines, in order.
pub proof fn lemma_preview_lines(s: Seq<char>)
    requires
        forall|i: int| 0 <= i < lines_of(s).len() ==> !is_fence(#[trigger] lines_of(s)[i]),
    ensures
        spec_preview(s) == lines_of(s).map_values(|l: Seq<char>| block_of(l)),
{
    lemma_blocks_no_fence(lines_of(s), 0);
    assert(lines_of(s).skip(0) =~= lines_of(s));
}

} // verus!
