//! Text the editor writes out or shows about a document: the HTML export,
//! the history list's labels, and the status bar line.
use vstd::prelude::*;
use crate::text::{push_str, push_char, chars_of};
use crate::settings::{Rgba, FocusMode, color_hex, spec_color_hex, theme_fg, theme_bg, theme_name, focus_label};
use crate::stats::{count_words, count_non_ws_spec, spec_line_count};
use crate::writer::strings_view;
use crate::tab::{tab_name, path_view};
use crate::numbers::{decimal, push_decimal, push_decimal_u64};
use crate::writer::Writer;

verus! {

// ── HTML export ───────────────────────────────────────────────────────

/// `s` with `&`, `<` and `>` written as HTML entities.
pub open spec fn html_escape(s: Seq<char>) -> Seq<char>
    decreases s.len(),
{
    if s.len() == 0 {
        seq![]
    } else {
        let c = s.last();
        html_escape(s.drop_last()) + if c == '&' {
            "&amp;"@
        } else if c == '<' {
            "&lt;"@
        } else if c == '>' {
            "&gt;"@
        } else {
            seq![c]
        }
    }
}

/// The escaped text holds no `<` or `>`: nothing in it can open a tag.
pub proof fn lemma_escape_no_tags(s: Seq<char>)
    ensures
        forall|i: int| 0 <= i < html_escape(s).len() ==> #[trigger] html_escape(s)[i] != '<' && html_escape(s)[i] != '>',
    decreases s.len(),
{
    reveal_strlit("&amp;");
    reveal_strlit("&lt;");
    reveal_strlit("&gt;");
    if s.len() > 0 {
        lemma_escape_no_tags(s.drop_last());
        let a = html_escape(s.drop_last());
        let c = s.last();
        let b: Seq<char> = if c == '&' {
            "&amp;"@
        } else if c == '<' {
            "&lt;"@
        } else if c == '>' {
            "&gt;"@
        } else {
            seq![c]
        };
        assert(html_escape(s) == a + b);
        assert forall|i: int| 0 <= i < html_escape(s).len() implies #[trigger] html_escape(s)[i] != '<'
            && html_escape(s)[i] != '>' by {
            if i >= a.len() {
                assert(html_escape(s)[i] == b[i - a.len()]);
            } else {
                assert(html_escape(s)[i] == a[i]);
            }
        }
    }
}

/// Escapes `&`, `<` and `>` for HTML.
pub fn escape_html(text: &str) -> (r: String)
    ensures
        r@ == html_escape(text@),
{
    let cs = chars_of(text);
    let mut r = String::new();
    let mut i: usize = 0;
    while i < cs.len()
        invariant
            cs@ == text@,
            i <= cs@.len(),
            r@ == html_escape(cs@.take(i as int)),
        decreases cs@.len() - i,
    {
        let c = cs[i];
        let ghost before = r@;
        proof {
            assert(cs@.take(i + 1).drop_last() =~= cs@.take(i as int));
            assert(cs@.take(i + 1).last() == c);
        }
        if c == '&' {
            push_str(&mut r, "&amp;");
        } else if c == '<' {
            push_str(&mut r, "&lt;");
        } else if c == '>' {
            push_str(&mut r, "&gt;");
        } else {
            push_char(&mut r, c);
            proof {
                assert(r@ =~= before + seq![c]);
            }
        }
        i += 1;
    }
    proof {
        assert(cs@.take(cs@.len() as int) =~= cs@);
    }
    r
}

/// The exported HTML page: the title, the font size in pixels, the line
/// height as written, the text and background colours, and the escaped
/// text in a `pre` block.
pub open spec fn html_page(
    title: Seq<char>,
    font_px: nat,
    line_height: Seq<char>,
    fg: Seq<char>,
    bg: Seq<char>,
    body: Seq<char>,
) -> Seq<char> {
    "<!DOCTYPE html>\n<html><head><meta charset=\"utf-8\">\n<title>"@ + title + "</title>\n<style>\nbody { max-width:700px; margin:50px auto; padding:0 40px;\nfont-family:'Malgun Gothic','Segoe UI',sans-serif;\nfont-size:"@
        + decimal(font_px) + "px; line-height:"@ + line_height + "; color:"@ + fg + "; background:"@
        + bg
        + "; }\npre { white-space:pre-wrap; word-wrap:break-word; font-family:inherit; }\n@media print { body { margin:0; max-width:100%; } }\n</style>\n</head>\n<body>\n<pre>"@
        + html_escape(body) + "</pre>\n</body></html>"@
}

/// Builds the exported HTML page.
pub fn html_document(
    title: &str,
    font_px: u32,
    line_height: &str,
    fg: Rgba,
    bg: Rgba,
    text: &str,
) -> (r: String)
    ensures
        r@ == html_page(title@, font_px as nat, line_height@, spec_color_hex(fg), spec_color_hex(bg), text@),
{
    let mut r = String::new();
    push_str(&mut r, "<!DOCTYPE html>\n<html><head><meta charset=\"utf-8\">\n<title>");
    push_str(&mut r, title);
    push_str(
        &mut r,
        "</title>\n<style>\nbody { max-width:700px; margin:50px auto; padding:0 40px;\nfont-family:'Malgun Gothic','Segoe UI',sans-serif;\nfont-size:",
    );
    push_decimal(&mut r, font_px as usize);
    push_str(&mut r, "px; line-height:");
    push_str(&mut r, line_height);
    push_str(&mut r, "; color:");
    let f = color_hex(fg);
    push_str(&mut r, f.as_str());
    push_str(&mut r, "; background:");
    let b = color_hex(bg);
    push_str(&mut r, b.as_str());
    push_str(
        &mut r,
        "; }\npre { white-space:pre-wrap; word-wrap:break-word; font-family:inherit; }\n@media print { body { margin:0; max-width:100%; } }\n</style>\n</head>\n<body>\n<pre>",
    );
    let e = escape_html(text);
    push_str(&mut r, e.as_str());
    push_str(&mut r, "</pre>\n</body></html>");
    r
}

impl Writer {
    /// The active tab exported as an HTML page, in the theme's colours.
    pub fn export_html_text(&self, font_px: u32, line_height: &str) -> (r: String)
        requires
            self.wf(),
        ensures
            r@ == html_page(
                tab_name(path_view(self.tabs@[self.active as int].file_path)),
                font_px as nat,
                line_height@,
                spec_color_hex(theme_fg(self.theme)),
                spec_color_hex(theme_bg(self.theme)),
                self.text_view(),
            ),
    {
        let t = &self.tabs[self.active];
        let name = t.name();
        html_document(name.as_str(), font_px, line_height, self.theme.fg(), self.theme.bg(), t.text.as_str())
    }
}

// ── History labels ────────────────────────────────────────────────────

/// How long ago a snapshot was taken, from the seconds elapsed: seconds
/// under a minute, minutes under an hour, else hours.
pub open spec fn age_label(secs: nat) -> Seq<char> {
    if secs < 60 {
        decimal(secs) + "s ago"@
    } else if secs < 3600 {
        decimal(secs / 60) + "m ago"@
    } else {
        decimal(secs / 3600) + "h ago"@
    }
}

/// The label of a snapshot taken at `taken_ms`, at `now_ms`.
pub fn snapshot_age(now_ms: u64, taken_ms: u64) -> (r: String)
    ensures
        r@ == age_label((if now_ms >= taken_ms { (now_ms - taken_ms) / 1000 } else { 0 }) as nat),
{
    let secs: u64 = if now_ms >= taken_ms { (now_ms - taken_ms) / 1000 } else { 0 };
    let mut r = String::new();
    if secs < 60 {
        push_decimal_u64(&mut r, secs);
        push_str(&mut r, "s ago");
    } else if secs < 3600 {
        push_decimal_u64(&mut r, secs / 60);
        push_str(&mut r, "m ago");
    } else {
        push_decimal_u64(&mut r, secs / 3600);
        push_str(&mut r, "h ago");
    }
    r
}

/// The first sixty characters of a snapshot with newlines shown as spaces,
/// and `...` after them when the text is longer.
pub open spec fn snapshot_preview_of(t: Seq<char>) -> Seq<char> {
    let head = t.take(if t.len() < 60 { t.len() as int } else { 60 });
    head.map_values(|c: char| if c == '\n' { ' ' } else { c }) + if t.len() > 60 {
        "..."@
    } else {
        seq![]
    }
}

/// The preview line of a snapshot's text.
pub fn snapshot_preview(text: &str) -> (r: String)
    ensures
        r@ == snapshot_preview_of(text@),
{
    let cs = chars_of(text);
    let n: usize = if cs.len() < 60 { cs.len() } else { 60 };
    let ghost head = cs@.take(n as int);
    let mut r = String::new();
    let mut i: usize = 0;
    while i < n
        invariant
            cs@ == text@,
            n <= cs@.len(),
            head == cs@.take(n as int),
            i <= n,
            r@ == head.take(i as int).map_values(|c: char| if c == '\n' { ' ' } else { c }),
        decreases n - i,
    {
        let c = cs[i];
        push_char(&mut r, if c == '\n' { ' ' } else { c });
        proof {
            assert(r@ =~= head.take(i + 1).map_values(|c: char| if c == '\n' { ' ' } else { c }));
        }
        i += 1;
    }
    proof {
        assert(head.take(n as int) =~= head);
    }
    if cs.len() > 60 {
        push_str(&mut r, "...");
    } else {
        proof {
            assert(r@ + seq![] =~= r@);
        }
    }
    r
}

// ── Status bar ────────────────────────────────────────────────────────

/// The status line: lines, words, characters with and without spaces,
/// pages and the reading time as given, then the goal when one is set.
pub open spec fn status_text(
    lines: nat,
    words: nat,
    chars: nat,
    solid: nat,
    pages: nat,
    reading: Seq<char>,
    goal: nat,
) -> Seq<char> {
    "L:"@ + decimal(lines) + "  W:"@ + decimal(words) + "  C:"@ + decimal(chars) + "/"@ + decimal(solid)
        + "  P:"@ + decimal(pages) + "  "@ + reading + if goal > 0 {
        "  ["@ + decimal(words) + "/"@ + decimal(goal) + "]"@
    } else {
        seq![]
    }
}

/// The modes the status bar lists after the session count: the focus mode
/// when on, typewriter, zen and smart typography when on, and the theme.
pub open spec fn status_modes_of(w: Writer) -> Seq<Seq<char>> {
    (if w.focus_mode != FocusMode::Off { seq![focus_label(w.focus_mode)] } else { seq![] })
        + (if w.typewriter { seq!["Typewriter"@] } else { seq![] })
        + (if w.zen_mode { seq!["Zen"@] } else { seq![] })
        + (if w.smart_typography { seq!["Typo"@] } else { seq![] })
        + seq![theme_name(w.theme)]
}

impl Writer {
    /// The status line of the active tab, with the reading time as given.
    pub fn status_line(&self, reading: &str) -> (r: String)
        requires
            self.wf(),
        ensures
            r@ == status_text(
                spec_line_count(self.text_view()),
                count_words(self.text_view()),
                self.text_view().len(),
                count_non_ws_spec(self.text_view()),
                (count_words(self.text_view()) + 249) / 250,
                reading@,
                self.word_goal as nat,
            ),
    {
        let words = self.word_count();
        let mut r = "L:".to_owned();
        push_decimal(&mut r, self.line_count());
        push_str(&mut r, "  W:");
        push_decimal(&mut r, words);
        push_str(&mut r, "  C:");
        push_decimal(&mut r, self.char_count());
        push_str(&mut r, "/");
        push_decimal(&mut r, self.char_count_nospaces());
        push_str(&mut r, "  P:");
        push_decimal(&mut r, self.page_count());
        push_str(&mut r, "  ");
        push_str(&mut r, reading);
        if self.word_goal > 0 {
            push_str(&mut r, "  [");
            push_decimal(&mut r, words);
            push_str(&mut r, "/");
            push_decimal(&mut r, self.word_goal);
            push_str(&mut r, "]");
        } else {
            proof {
                assert(r@ + seq![] =~= r@);
            }
        }
        r
    }

    /// The modes the status bar lists.
    pub fn status_modes(&self) -> (r: Vec<String>)
        ensures
            strings_view(r@) == status_modes_of(*self),
    {
        let mut r: Vec<String> = Vec::new();
        if self.focus_mode != FocusMode::Off {
            r.push(self.focus_mode.label().to_owned());
        }
        if self.typewriter {
            r.push("Typewriter".to_owned());
        }
        if self.zen_mode {
            r.push("Zen".to_owned());
        }
        if self.smart_typography {
            r.push("Typo".to_owned());
        }
        r.push(self.theme.name().to_owned());
        proof {
            assert(strings_view(r@) =~= status_modes_of(*self));
        }
        r
    }
}

} // verus!
