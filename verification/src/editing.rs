//! Edits the editor makes on the user's behalf: smart typography, jumping to
//! a line, the writing goal, and the labels built from the document.
use vstd::prelude::*;
use vstd::utf8::*;
use vstd::string::*;
use crate::text::{push_str, chars_of, string_from_chars, lemma_encode_concat};
use crate::tab::tab_name;
use crate::tab::path_view;
use crate::search::{fits, splice};
use crate::stats::{lines_of, line_ranges, line_offset, spec_goto_line, trim, trim_range, spec_line_count};
use crate::numbers::{decimal, decimal_string, push_decimal, parsed_usize, parse_usize};
use crate::writer::{Writer, tab_text_set, join_lines};

verus! {


// ── Smart typography ──────────────────────────────────────────────────

/// Whether a byte before a straight quote makes it an opening quote: a
/// space, a newline or an opening parenthesis.
pub open spec fn opens_quote(b: u8) -> bool {
    b == 32 || b == 10 || b == 40
}

/// The text (as UTF-8 bytes) after smart typography reacts to its end:
/// ` -- ` becomes ` — `, `...` becomes `…`, and a straight double or
/// single quote becomes an opening or closing curly one. `None` when
/// nothing changes.
#[verifier::opaque]
pub open spec fn smart_typo(b: Seq<u8>) -> Option<Seq<u8>> {
    let n = b.len() as int;
    if n < 2 {
        None
    } else if n >= 4 && b.subrange(n - 4, n) == seq![32u8, 45u8, 45u8, 32u8] {
        Some(b.subrange(0, n - 4) + encode_utf8(seq![' ', '\u{2014}', ' ']))
    } else if n >= 3 && b.subrange(n - 3, n) == seq![46u8, 46u8, 46u8] {
        Some(b.subrange(0, n - 3) + encode_utf8(seq!['\u{2026}']))
    } else if b[n - 1] == 34 {
        Some(b.subrange(0, n - 1) + encode_utf8(
            seq![if opens_quote(b[n - 2]) { '\u{201C}' } else { '\u{201D}' }],
        ))
    } else if b[n - 1] == 39 {
        Some(b.subrange(0, n - 1) + encode_utf8(
            seq![if opens_quote(b[n - 2]) { '\u{2018}' } else { '\u{2019}' }],
        ))
    } else {
        None
    }
}

/// The last byte of a character's UTF-8 encoding opens a quote exactly when
/// the character is a space, a newline or `(`.
proof fn lemma_last_byte_opens(c: char)
    ensures
        encode_scalar(c as u32).len() >= 1,
        opens_quote(encode_scalar(c as u32).last()) <==> (c == ' ' || c == '\n' || c == '('),
{
    let v = c as u32;
    char_is_scalar(c);
    if has_width_1_encoding(v) {
        assert((v & 0x7F) == v) by (bit_vector)
            requires
                v <= 0x7F,
        ;
        assert(encode_scalar(v).last() == v as u8);
    } else {
        assert(0x80u8 | ((v & 0x3F) as u8) >= 0x80u8) by (bit_vector);
        assert(encode_scalar(v).last() == last_continuation_byte(v));
    }
}

/// A straight quote typed after a space, a newline or `(` becomes an
/// opening curly quote, and after any other character a closing one; the
/// double quote (`“ ”`) and the single quote (`‘ ’`) follow the same rule,
/// and the text before the quote stays as it was.
pub proof fn lemma_curly_quotes(p: Seq<char>, c: char, q: char)
    requires
        q == '"' || q == '\'',
    ensures
        smart_typo(encode_utf8(p + seq![c, q])) == Some(encode_utf8(p + seq![
            c,
            if c == ' ' || c == '\n' || c == '(' {
                if q == '"' { '\u{201C}' } else { '\u{2018}' }
            } else {
                if q == '"' { '\u{201D}' } else { '\u{2019}' }
            },
        ])),
{
    reveal(smart_typo);
    let qq = if c == ' ' || c == '\n' || c == '(' {
        if q == '"' { '\u{201C}' } else { '\u{2018}' }
    } else {
        if q == '"' { '\u{201D}' } else { '\u{2019}' }
    };
    let e = encode_scalar(c as u32);
    lemma_last_byte_opens(c);
    let qv = q as u32;
    let qb: u8 = if q == '"' { 34u8 } else { 39u8 };
    assert((qv & 0x7F) as u8 == qb) by (bit_vector)
        requires
            qv == 34 || qv == 39,
            qb == (if qv == 34 { 34u8 } else { 39u8 }),
    ;
    assert(encode_utf8(Seq::<char>::empty()) =~= Seq::<u8>::empty());
    assert(seq![q].drop_first() =~= Seq::<char>::empty());
    assert(encode_utf8(seq![q]) =~= seq![qb]);
    assert(seq![c, q].drop_first() =~= seq![q]);
    assert(encode_utf8(seq![c, q]) == e + seq![qb]);
    lemma_encode_concat(p, seq![c, q]);
    let b = encode_utf8(p + seq![c, q]);
    let n = b.len() as int;
    assert(b =~= encode_utf8(p) + e + seq![qb]);
    assert(b[n - 1] == qb);
    assert(b[n - 2] == e.last());
    if n >= 4 {
        assert(b.subrange(n - 4, n)[3] == b[n - 1]);
    }
    if n >= 3 {
        assert(b.subrange(n - 3, n)[2] == b[n - 1]);
    }
    assert(seq![c].drop_first() =~= Seq::<char>::empty());
    assert(encode_utf8(seq![c]) =~= e);
    lemma_encode_concat(p, seq![c]);
    assert(b.subrange(0, n - 1) =~= encode_utf8(p + seq![c]));
    lemma_encode_concat(p + seq![c], seq![qq]);
    assert(p + seq![c] + seq![qq] =~= p + seq![c, qq]);
}

/// Whether smart typography can read the end of the text: the last four
/// bytes, and when they are not ` -- ` the last three, start at character
/// boundaries (slicing there fails otherwise).
pub open spec fn typo_readable(b: Seq<u8>) -> bool {
    let n = b.len() as int;
    n < 2 || ({
        &&& n >= 4 ==> is_char_boundary(b, n - 4)
        &&& (n >= 3 && !(n >= 4 && b.subrange(n - 4, n) == seq![32u8, 45u8, 45u8, 32u8]))
            ==> is_char_boundary(b, n - 3)
    })
}

/// The last four bytes of `t`, one by one.
proof fn lemma_tail4(t: Seq<u8>)
    requires
        t.len() >= 4,
    ensures
        (t.subrange(t.len() - 4, t.len() as int) == seq![32u8, 45u8, 45u8, 32u8]) <==> (t[t.len()
            - 4] == 32 && t[t.len() - 3] == 45 && t[t.len() - 2] == 45 && t[t.len() - 1] == 32),
{
    let n = t.len() as int;
    let w = t.subrange(n - 4, n);
    assert(w[0] == t[n - 4] && w[1] == t[n - 3] && w[2] == t[n - 2] && w[3] == t[n - 1]);
    if t[n - 4] == 32 && t[n - 3] == 45 && t[n - 2] == 45 && t[n - 1] == 32 {
        assert(w =~= seq![32u8, 45u8, 45u8, 32u8]);
    }
}

/// The last three bytes of `t`, one by one.
proof fn lemma_tail3(t: Seq<u8>)
    requires
        t.len() >= 3,
    ensures
        (t.subrange(t.len() - 3, t.len() as int) == seq![46u8, 46u8, 46u8]) <==> (t[t.len() - 3]
            == 46 && t[t.len() - 2] == 46 && t[t.len() - 1] == 46),
{
    let n = t.len() as int;
    let w = t.subrange(n - 3, n);
    assert(w[0] == t[n - 3] && w[1] == t[n - 2] && w[2] == t[n - 1]);
    if t[n - 3] == 46 && t[n - 2] == 46 && t[n - 1] == 46 {
        assert(w =~= seq![46u8, 46u8, 46u8]);
    }
}

/// The text after smart typography, changed or not.
pub open spec fn typo_result(b: Seq<u8>) -> Seq<u8> {
    match smart_typo(b) {
        Some(t) => t,
        None => b,
    }
}

/// The curly quote that replaces a straight one after byte `before`.
fn curly_quote(double: bool, before: u8) -> (r: &'static str)
    ensures
        r@ == seq![
            if double {
                if opens_quote(before) { '\u{201C}' } else { '\u{201D}' }
            } else {
                if opens_quote(before) { '\u{2018}' } else { '\u{2019}' }
            },
        ],
{
    let open = before == 32 || before == 10 || before == 40;
    if double {
        if open {
            proof { reveal_strlit("\u{201C}"); }
            "\u{201C}"
        } else {
            proof { reveal_strlit("\u{201D}"); }
            "\u{201D}"
        }
    } else {
        if open {
            proof { reveal_strlit("\u{2018}"); }
            "\u{2018}"
        } else {
            proof { reveal_strlit("\u{2019}"); }
            "\u{2019}"
        }
    }
}

/// `text` after smart typography, when it changes.
pub fn smart_typo_text(text: &str) -> (r: Option<String>)
    requires
        typo_readable(text.spec_bytes()),
    ensures
        match smart_typo(text.spec_bytes()) {
            Some(t) => r matches Some(s) && encode_utf8(s@) == t,
            None => r is None,
        },
{
    let b = text.as_bytes();
    let n = b.len();
    let ghost t = text.spec_bytes();
    proof {
        reveal(smart_typo);
        encode_utf8_valid_utf8(text@);
        is_char_boundary_start_end_of_seq(t);
    }
    if n < 2 {
        return None;
    }
    if n >= 4 && b[n - 4] == 32 && b[n - 3] == 45 && b[n - 2] == 45 && b[n - 1] == 32 {
        proof {
            lemma_tail4(t);
            reveal_strlit(" \u{2014} ");
        }
        let r = splice(text, n - 4, n, " \u{2014} ");
        proof {
            assert(" \u{2014} "@ =~= seq![' ', '\u{2014}', ' ']);
            assert(t.subrange(n as int, n as int) =~= Seq::<u8>::empty());
            assert(encode_utf8(r@) =~= t.subrange(0, n - 4) + encode_utf8(seq![' ', '\u{2014}', ' ']));
        }
        return Some(r);
    }
    proof {
        if n >= 4 {
            lemma_tail4(t);
        }
    }
    if n >= 3 && b[n - 3] == 46 && b[n - 2] == 46 && b[n - 1] == 46 {
        proof {
            lemma_tail3(t);
            reveal_strlit("\u{2026}");
        }
        let r = splice(text, n - 3, n, "\u{2026}");
        proof {
            assert("\u{2026}"@ =~= seq!['\u{2026}']);
            assert(t.subrange(n as int, n as int) =~= Seq::<u8>::empty());
            assert(encode_utf8(r@) =~= t.subrange(0, n - 3) + encode_utf8(seq!['\u{2026}']));
        }
        return Some(r);
    }
    proof {
        if n >= 3 {
            lemma_tail3(t);
        }
    }
    if b[n - 1] == 34 || b[n - 1] == 39 {
        let q = curly_quote(b[n - 1] == 34, b[n - 2]);
        proof {
            is_char_boundary_iff_not_is_continuation_byte(t, n - 1);
        }
        let r = splice(text, n - 1, n, q);
        proof {
            assert(t.subrange(n as int, n as int) =~= Seq::<u8>::empty());
            assert(encode_utf8(r@) =~= t.subrange(0, n - 1) + encode_utf8(q@));
        }
        return Some(r);
    }
    None
}

// ── Go to line ────────────────────────────────────────────────────────

/// Line offsets grow with the line number.
proof fn lemma_line_offset_mono(ls: Seq<Seq<char>>, a: int, b: int)
    requires
        0 <= a <= b,
    ensures
        line_offset(ls, a) <= line_offset(ls, b),
    decreases b - a,
{
    if a < b {
        lemma_line_offset_mono(ls, a, b - 1);
    }
}

/// Past the last line the offset no longer grows.
proof fn lemma_line_offset_past(ls: Seq<Seq<char>>, t: int)
    requires
        t >= ls.len(),
    ensures
        line_offset(ls, t) == line_offset(ls, ls.len() as int),
    decreases t - ls.len(),
{
    if t > ls.len() {
        lemma_line_offset_past(ls, t - 1);
    }
}

/// Encoding a piece of a sequence takes no more bytes than the whole.
proof fn lemma_encode_sub_len(s: Seq<char>, a: int, b: int)
    requires
        0 <= a <= b <= s.len(),
    ensures
        encode_utf8(s.subrange(a, b)).len() <= encode_utf8(s).len(),
{
    assert(s =~= s.subrange(0, a) + s.subrange(a, b) + s.subrange(b, s.len() as int));
    lemma_encode_concat(s.subrange(0, a), s.subrange(a, b));
    lemma_encode_concat(s.subrange(0, a) + s.subrange(a, b), s.subrange(b, s.len() as int));
}

/// Number of UTF-8 bytes of the characters `cs[a..b]`.
fn utf8_len_range(cs: &Vec<char>, a: usize, b: usize) -> (n: usize)
    requires
        a <= b <= cs.len(),
        encode_utf8(cs@).len() <= usize::MAX,
    ensures
        n == encode_utf8(cs@.subrange(a as int, b as int)).len(),
{
    let mut n: usize = 0;
    let mut i = a;
    while i < b
        invariant
            a <= i <= b <= cs.len(),
            encode_utf8(cs@).len() <= usize::MAX,
            n == encode_utf8(cs@.subrange(a as int, i as int)).len(),
        decreases b - i,
    {
        proof {
            let s = cs@.subrange(a as int, b as int);
            crate::text::lemma_encode_take_push(s, i - a);
            assert(s.take(i - a) =~= cs@.subrange(a as int, i as int));
            assert(s.take(i - a + 1) =~= cs@.subrange(a as int, i + 1));
            lemma_encode_sub_len(cs@, a as int, i + 1);
        }
        n = n + crate::text::utf8_len(cs[i]);
        i += 1;
    }
    n
}

/// Byte position of the start of line `line` (numbered from one) in
/// `text`; past the last line, the end of the text.
pub fn goto_line_pos(text: &str, line: usize) -> (r: usize)
    ensures
        r == spec_goto_line(text@, line as int),
{
    let cs = chars_of(text);
    let ranges = line_ranges(&cs);
    let total = text.as_bytes().len();
    let ghost s = text@;
    let ghost ls = lines_of(s);
    let target: usize = if line >= 1 { line - 1 } else { 0 };
    let mut pos: usize = 0;
    let mut k: usize = 0;
    while k < target && k < ranges.len()
        invariant
            cs@ == s,
            s == text@,
            ls == lines_of(s),
            total == encode_utf8(s).len(),
            ranges@.len() == ls.len(),
            forall|q: int|
                #![trigger ranges@[q]]
                0 <= q < ranges@.len() ==> ranges@[q].0 <= ranges@[q].1 <= s.len() && s.subrange(
                    ranges@[q].0 as int,
                    ranges@[q].1 as int,
                ) == ls[q],
            target == if line >= 1 { line - 1 } else { 0 },
            k <= target,
            k <= ranges@.len(),
            pos == line_offset(ls, k as int),
            pos <= total,
        decreases target - k,
    {
        let (a, b) = ranges[k];
        let n = utf8_len_range(&cs, a, b);
        proof {
            assert(s.subrange(a as int, b as int) == ls[k as int]);
            assert(n == encode_utf8(ls[k as int]).len());
            assert(line_offset(ls, k + 1) == pos + n + 1);
            lemma_line_offset_mono(ls, k + 1, target as int);
        }
        if n >= total - pos {
            proof {
                assert(line_offset(ls, target as int) > total);
                assert(spec_goto_line(s, line as int) == total);
            }
            return total;
        }
        pos = pos + n + 1;
        k += 1;
    }
    proof {
        if k < target {
            lemma_line_offset_past(ls, target as int);
        }
    }
    pos
}

/// The whole number typed into a field, read once surrounding whitespace
/// is dropped.
pub fn typed_number(field: &String) -> (r: Option<usize>)
    ensures
        match parsed_usize(trim(field@)) {
            Some(n) => r == Some(n as usize),
            None => r is None,
        },
{
    let cs = chars_of(field.as_str());
    let (a, b) = trim_range(&cs, 0, cs.len());
    let typed = string_from_chars(&cs, a, b);
    proof {
        assert(cs@.subrange(0, cs@.len() as int) =~= cs@);
    }
    parse_usize(typed.as_str())
}

impl Writer {
    /// Where the line typed into the go-to-line field starts, when a whole
    /// number is typed there.
    #[verifier::opaque]
    pub open spec fn goto_spec(&self) -> Option<usize> {
        match parsed_usize(trim(self.goto_line_input@)) {
            Some(line) => Some(spec_goto_line(self.text_view(), line as int) as usize),
            None => None,
        }
    }

    /// Where the line typed into the go-to-line field starts, when a whole
    /// number is typed there.
    pub fn goto_line_target(&self) -> (r: Option<usize>)
        requires
            self.wf(),
        ensures
            r == self.goto_spec(),
    {
        proof {
            reveal(Writer::goto_spec);
        }
        match typed_number(&self.goto_line_input) {
            Some(line) => Some(goto_line_pos(self.tabs[self.active].text.as_str(), line)),
            None => None,
        }
    }

    /// Jumps to the line typed into the go-to-line field (trimmed, as a
    /// whole number); the field's window closes either way.
    #[verifier::spinoff_prover]
    #[verifier::rlimit(40)]
    pub fn goto_line(&mut self)
        requires
            old(self).wf(),
        ensures
            final(self).wf(),
            final(self).tabs == old(self).tabs,
            final(self).active == old(self).active,
            final(self).cursor_byte_pos == match old(self).goto_spec() {
                Some(p) => p,
                None => old(self).cursor_byte_pos,
            },
            !final(self).show_goto_line,
            final(self).same_find(old(self)),
            final(self).same_data(old(self)),
            final(self).same_ai(old(self)),
            final(self).show_status == old(self).show_status,
            final(self).theme == old(self).theme,
            final(self).focus_mode == old(self).focus_mode,
            final(self).zen_mode == old(self).zen_mode,
            final(self).fullscreen == old(self).fullscreen,
    {
        let target = self.goto_line_target();
        let cursor = match target {
            Some(p) => p,
            None => self.cursor_byte_pos,
        };
        self.cursor_byte_pos = cursor;
        self.show_goto_line = false;
    }

    // ── Writing goal ──────────────────────────────────────────────────

    /// Sets the goal to the number typed into the goal field (trimmed);
    /// nothing changes when it is not a whole number.
    #[verifier::spinoff_prover]
    pub fn set_goal_from_input(&mut self)
        ensures
            final(self).word_goal == match parsed_usize(trim(old(self).word_goal_input@)) {
                Some(n) => n as usize,
                None => old(self).word_goal,
            },
            final(self).word_goal_input == old(self).word_goal_input,
            final(self).session_start_words == old(self).session_start_words,
            final(self).goto_line_input == old(self).goto_line_input,
            final(self).same_doc(old(self)),
            final(self).same_find(old(self)),
            final(self).same_view(old(self)),
            final(self).same_recent(old(self)),
            final(self).same_history(old(self)),
            final(self).same_clock(old(self)),
            final(self).same_ai(old(self)),
    {
        match typed_number(&self.word_goal_input) {
            Some(n) => {
                self.word_goal = n;
            },
            None => {},
        }
    }

    /// Sets the goal to one of the preset word counts, showing it in the field.
    #[verifier::spinoff_prover]
    pub fn set_goal_preset(&mut self, preset: usize)
        ensures
            final(self).word_goal == preset,
            final(self).word_goal_input@ == decimal(preset as nat),
            final(self).session_start_words == old(self).session_start_words,
            final(self).goto_line_input == old(self).goto_line_input,
            final(self).same_doc(old(self)),
            final(self).same_find(old(self)),
            final(self).same_view(old(self)),
            final(self).same_recent(old(self)),
            final(self).same_history(old(self)),
            final(self).same_clock(old(self)),
            final(self).same_ai(old(self)),
    {
        self.word_goal = preset;
        self.word_goal_input = decimal_string(preset);
    }

    /// Removes the goal and empties the field.
    #[verifier::spinoff_prover]
    pub fn clear_goal(&mut self)
        ensures
            final(self).word_goal == 0,
            final(self).word_goal_input@.len() == 0,
            final(self).session_start_words == old(self).session_start_words,
            final(self).goto_line_input == old(self).goto_line_input,
            final(self).same_doc(old(self)),
            final(self).same_find(old(self)),
            final(self).same_view(old(self)),
            final(self).same_recent(old(self)),
            final(self).same_history(old(self)),
            final(self).same_clock(old(self)),
            final(self).same_ai(old(self)),
    {
        self.word_goal = 0;
        self.word_goal_input = String::new();
    }

    // ── Typing ────────────────────────────────────────────────────────

    /// Whether smart typography can read the end of the active text.
    pub fn typo_readable_now(&self) -> (r: bool)
        requires
            self.wf(),
        ensures
            r == typo_readable(encode_utf8(self.text_view())),
    {
        let text = self.tabs[self.active].text.as_str();
        let n = text.as_bytes().len();
        if n < 2 {
            return true;
        }
        if n >= 4 && !text.is_char_boundary(n - 4) {
            return false;
        }
        let b = text.as_bytes();
        let dashes = n >= 4 && b[n - 4] == 32 && b[n - 3] == 45 && b[n - 2] == 45 && b[n - 1] == 32;
        proof {
            if n >= 4 {
                lemma_tail4(text.spec_bytes());
            }
        }
        if n >= 3 && !dashes {
            text.is_char_boundary(n - 3)
        } else {
            true
        }
    }

    /// Applies smart typography to the end of the active text, marking the
    /// tab modified when the text changes.
    #[verifier::spinoff_prover]
    pub fn apply_smart_typo(&mut self)
        requires
            old(self).wf(),
            typo_readable(encode_utf8(old(self).text_view())),
        ensures
            final(self).wf(),
            match smart_typo(encode_utf8(old(self).text_view())) {
                Some(t) => tab_text_set(old(self).tabs@, final(self).tabs@, old(self).active as int,
                    final(self).text_view(), true) && encode_utf8(final(self).text_view()) == t,
                None => final(self).tabs == old(self).tabs,
            },
            final(self).active == old(self).active,
            final(self).cursor_byte_pos == old(self).cursor_byte_pos,
            final(self).same_find(old(self)),
            final(self).same_view(old(self)),
            final(self).same_data(old(self)),
            final(self).same_ai(old(self)),
    {
        match smart_typo_text(self.tabs[self.active].text.as_str()) {
            Some(t) => {
                self.set_active_text(t, true);
            },
            None => {},
        }
    }

    /// What follows an edit of the active text, given the text before it:
    /// when the text changed the tab is marked modified and, with smart
    /// typography on, its end is corrected. Tells whether it changed.
    #[verifier::spinoff_prover]
    pub fn note_edit(&mut self, before: &str) -> (changed: bool)
        requires
            old(self).wf(),
            old(self).smart_typography && old(self).text_view() != before@ ==> typo_readable(
                encode_utf8(old(self).text_view()),
            ),
        ensures
            final(self).wf(),
            changed == (old(self).text_view() != before@),
            !changed ==> final(self).tabs == old(self).tabs,
            changed && !old(self).smart_typography ==> tab_text_set(old(self).tabs@,
                final(self).tabs@, old(self).active as int, old(self).text_view(), true),
            changed && old(self).smart_typography ==> tab_text_set(old(self).tabs@,
                final(self).tabs@, old(self).active as int, final(self).text_view(), true) && encode_utf8(final(self).text_view())
                == typo_result(encode_utf8(old(self).text_view())),
            final(self).active == old(self).active,
            final(self).cursor_byte_pos == old(self).cursor_byte_pos,
            final(self).same_find(old(self)),
            final(self).same_view(old(self)),
            final(self).same_data(old(self)),
            final(self).same_ai(old(self)),
    {
        let changed = self.tabs[self.active].text != before.to_owned();
        if changed {
            self.edited();
        }
        changed
    }

    /// Marks the active tab modified and, with smart typography on,
    /// corrects the end of its text.
    #[verifier::spinoff_prover]
    #[verifier::rlimit(40)]
    fn edited(&mut self)
        requires
            old(self).wf(),
            old(self).smart_typography ==> typo_readable(encode_utf8(old(self).text_view())),
        ensures
            final(self).wf(),
            !old(self).smart_typography ==> tab_text_set(old(self).tabs@, final(self).tabs@,
                old(self).active as int, old(self).text_view(), true),
            old(self).smart_typography ==> tab_text_set(old(self).tabs@, final(self).tabs@,
                old(self).active as int, final(self).text_view(), true) && encode_utf8(final(self).text_view())
                == typo_result(encode_utf8(old(self).text_view())),
            final(self).active == old(self).active,
            final(self).cursor_byte_pos == old(self).cursor_byte_pos,
            final(self).same_find(old(self)),
            final(self).same_view(old(self)),
            final(self).same_data(old(self)),
            final(self).same_ai(old(self)),
    {
        let text = self.tabs[self.active].text.as_str();
        let new_text = if self.smart_typography {
            match smart_typo_text(text) {
                Some(t) => t,
                None => text.to_owned(),
            }
        } else {
            text.to_owned()
        };
        self.set_active_text(new_text, true);
    }

    // ── Labels ────────────────────────────────────────────────────────

    /// The window title: `Writing - ` and the active tab's title.
    pub fn window_title(&self) -> (r: String)
        requires
            self.wf(),
        ensures
            r@ == "Writing - "@ + if self.tabs@[self.active as int].modified {
                "* "@ + tab_name(path_view(self.tabs@[self.active as int].file_path))
            } else {
                tab_name(path_view(self.tabs@[self.active as int].file_path))
            },
    {
        let mut r = "Writing - ".to_owned();
        let t = self.tabs[self.active].title();
        push_str(&mut r, t.as_str());
        r
    }

    /// The line-number gutter: the numbers from one to the line count, one
    /// per line.
    pub fn gutter_text(&self) -> (r: String)
        requires
            self.wf(),
        ensures
            r@ == join_lines(Seq::new(
                spec_line_count(self.text_view()),
                |i: int| decimal((i + 1) as nat),
            )),
    {
        let n = crate::stats::line_count_of(self.tabs[self.active].text.as_str());
        let ghost all = Seq::new(n as nat, |i: int| decimal((i + 1) as nat));
        let mut r = String::new();
        let mut i: usize = 0;
        while i < n
            invariant
                i <= n,
                all == Seq::new(n as nat, |i: int| decimal((i + 1) as nat)),
                r@ == join_lines(all.take(i as int)),
            decreases n - i,
        {
            let ghost r0 = r@;
            proof {
                assert(all.take(i + 1).drop_last() =~= all.take(i as int));
            }
            if i > 0 {
                push_str(&mut r, "\n");
                proof {
                    reveal_strlit("\n");
                }
            }
            push_decimal(&mut r, i + 1);
            proof {
                if i == 0 {
                    assert(all.take(1) =~= seq![decimal(1)]);
                    assert(r@ =~= join_lines(all.take(1)));
                } else {
                    let p = all.take(i + 1);
                    assert(p.last() == decimal((i + 1) as nat));
                    assert(join_lines(p) == join_lines(p.drop_last()) + seq!['\n'] + p.last());
                    assert(r@ =~= join_lines(p));
                }
            }
            i += 1;
        }
        proof {
            assert(all.take(n as int) =~= all);
        }
        r
    }
}

} // verus!
