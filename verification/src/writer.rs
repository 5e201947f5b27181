//! The editor's state: open tabs, find and replace, settings, writing goals,
//! history snapshots and the AI assistant's text, with the operations the
//! user interface performs on them.
use vstd::prelude::*;
use vstd::utf8::*;
use crate::text::{push_str, chars_of, string_from_chars, lemma_encode_concat};
use crate::settings::{Theme, FontChoice, FocusMode, AiAction};
use crate::tab::{Tab, path_view};
use crate::search::{
    lowercase,
    to_lower,
    matches_from,
    next_match,
    find_match,
    count_matches,
    fits,
    splice,
    splice_all,
    replace_all_text,
};
use crate::stats::{
    lines_of,
    line_ranges,
    count_words,
    count_words_in,
    count_non_ws_in,
    count_non_ws_spec,
    spec_line_count,
    line_count_of,
    spec_sentence_count,
    sentence_count_of,
    spec_paragraph_count,
    paragraph_count_of,
    spec_outline,
    outline_of,
};

verus! {



/// A saved version of a document.
#[derive(Debug)]
pub struct HistoryEntry {
    pub text: String,
    /// When the snapshot was taken, in milliseconds since the editor started.
    pub timestamp: u64,
    pub word_count: usize,
}

/// The most snapshots kept in the history.
pub const MAX_HISTORY: usize = 100;

/// The most recent files remembered.
pub const MAX_RECENT: usize = 10;

/// The word counts offered as goals with one click.
pub const GOAL_PRESETS: &'static [usize; 4] = &[500, 1000, 2000, 5000];

/// The editor state.
#[derive(Debug)]
pub struct Writer {
    pub tabs: Vec<Tab>,
    pub active: usize,
    // find & replace
    pub show_find: bool,
    pub show_replace: bool,
    pub find_text: String,
    pub replace_text: String,
    pub find_count: usize,
    // settings
    pub show_status: bool,
    pub theme: Theme,
    pub font_choice: FontChoice,
    pub applied_font: Option<FontChoice>,
    pub focus_mode: FocusMode,
    pub typewriter: bool,
    pub fullscreen: bool,
    // state
    pub cursor_byte_pos: usize,
    pub recent_files: Vec<String>,
    pub show_recent: bool,
    pub show_about: bool,
    pub applied_titlebar: Option<Theme>,
    pub zen_mode: bool,
    pub show_line_numbers: bool,
    // writing goal
    pub word_goal: usize,
    pub word_goal_input: String,
    pub show_goal_settings: bool,
    // session
    pub session_start_words: usize,
    // panels
    pub show_stats_panel: bool,
    pub show_outline: bool,
    pub show_word_freq: bool,
    pub smart_typography: bool,
    // AI assistant
    pub ai_show: bool,
    pub ai_model: String,
    pub ai_action: AiAction,
    pub ai_custom_prompt: String,
    pub ai_result: String,
    pub ai_loading: bool,
    pub ai_error: String,
    pub ai_host: String,
    pub ai_available_models: Vec<String>,
    // go to line
    pub goto_line_input: String,
    pub show_goto_line: bool,
    // preview, highlighting, history
    pub show_preview: bool,
    pub syntax_highlight: bool,
    pub history: Vec<HistoryEntry>,
    pub show_history: bool,
    pub last_snapshot_text: String,
    // clock readings, in milliseconds since the editor started
    pub last_auto_save_ms: u64,
    pub last_snapshot_ms: u64,
    pub save_flash_ms: Option<u64>,
}

/// The texts of a list of strings.
pub open spec fn strings_view(v: Seq<String>) -> Seq<Seq<char>> {
    v.map_values(|s: String| s@)
}

/// `tabs` equals `old` except for the text and the modified flag of tab `i`.
pub open spec fn tab_text_set(old: Seq<Tab>, tabs: Seq<Tab>, i: int, text: Seq<char>, modified: bool) -> bool {
    &&& tabs.len() == old.len()
    &&& 0 <= i < tabs.len()
    &&& tabs[i].text@ == text
    &&& tabs[i].modified == modified
    &&& tabs[i].file_path == old[i].file_path
    &&& forall|k: int| 0 <= k < tabs.len() && k != i ==> #[trigger] tabs[k] == old[k]
}

/// The tabs after closing tab `i`: unchanged when it is the only one.
pub open spec fn closed_tabs(tabs: Seq<Tab>, i: int) -> Seq<Tab> {
    if tabs.len() > 1 { tabs.remove(i) } else { tabs }
}

/// Closing a tab that was just opened gives back the tabs there were.
pub proof fn lemma_close_opened(tabs: Seq<Tab>, t: Tab)
    requires
        tabs.len() >= 1,
    ensures
        closed_tabs(tabs.push(t), tabs.len() as int) == tabs,
        closed_active((tabs.len() + 1) as int, tabs.len() as int) == tabs.len() - 1,
{
    assert(tabs.push(t).remove(tabs.len() as int) =~= tabs);
}

/// The active tab after closing tab `i` of `n`: the same position, or the
/// new last tab when the closed tab was the last one.
pub open spec fn closed_active(n: int, i: int) -> int {
    if n > 1 && i >= n - 1 { n - 2 } else { i }
}

/// Closes tab `i` of `tabs` unless it is the only one, giving the tabs, the
/// tab to make active, and whether a tab was closed.
pub(crate) fn close_in(tabs: Vec<Tab>, i: usize) -> (r: (Vec<Tab>, usize, bool))
    requires
        i < tabs@.len(),
    ensures
        r.2 == (tabs@.len() > 1),
        r.0@ == closed_tabs(tabs@, i as int),
        r.1 == closed_active(tabs@.len() as int, i as int),
        r.1 < r.0@.len(),
{
    let mut tabs = tabs;
    let closed = remove_if_many(&mut tabs, i);
    let n = tabs.len();
    let active = if closed && i >= n { n - 1 } else { i };
    (tabs, active, closed)
}

/// Removes the tab at `i` when there is more than one tab.
fn remove_if_many(tabs: &mut Vec<Tab>, i: usize) -> (closed: bool)
    requires
        i < old(tabs)@.len(),
    ensures
        closed == (old(tabs)@.len() > 1),
        closed ==> final(tabs)@ == old(tabs)@.remove(i as int),
        !closed ==> final(tabs)@ == old(tabs)@,
{
    if tabs.len() > 1 {
        tabs.remove(i);
        true
    } else {
        false
    }
}


// ── Recent files ──────────────────────────────────────────────────────

/// `s` without the entries equal to `x`, in order.
pub open spec fn without(s: Seq<Seq<char>>, x: Seq<char>) -> Seq<Seq<char>>
    decreases s.len(),
{
    if s.len() == 0 {
        seq![]
    } else {
        let r = without(s.drop_last(), x);
        if s.last() == x {
            r
        } else {
            r.push(s.last())
        }
    }
}

/// The recent-file list after opening or saving `x`: `x` first, then the
/// other entries in order, at most ten in all.
pub open spec fn with_recent(s: Seq<Seq<char>>, x: Seq<char>) -> Seq<Seq<char>> {
    let t = seq![x] + without(s, x);
    if t.len() <= MAX_RECENT { t } else { t.take(MAX_RECENT as int) }
}

/// `without` keeps exactly the entries different from `x`.
pub proof fn lemma_without(s: Seq<Seq<char>>, x: Seq<char>)
    ensures
        without(s, x).len() <= s.len(),
        forall|i: int| 0 <= i < without(s, x).len() ==> #[trigger] without(s, x)[i] != x,
        forall|i: int| 0 <= i < without(s, x).len() ==> s.contains(#[trigger] without(s, x)[i]),
        (forall|i: int, j: int| 0 <= i < j < s.len() ==> s[i] != s[j]) ==> (forall|i: int, j: int|
            0 <= i < j < without(s, x).len() ==> without(s, x)[i] != without(s, x)[j]),
    decreases s.len(),
{
    if s.len() > 0 {
        let d = s.drop_last();
        lemma_without(d, x);
        let r = without(d, x);
        assert forall|i: int| 0 <= i < without(s, x).len() implies s.contains(#[trigger] without(s, x)[i]) by {
            if i < r.len() {
                assert(d.contains(r[i]));
                let k = choose|k: int| 0 <= k < d.len() && d[k] == r[i];
                assert(s[k] == r[i]);
            } else {
                assert(s[s.len() - 1] == without(s, x)[i]);
            }
        }
        if forall|i: int, j: int| 0 <= i < j < s.len() ==> s[i] != s[j] {
            assert forall|i: int, j: int| 0 <= i < j < d.len() implies d[i] != d[j] by {
                assert(d[i] == s[i] && d[j] == s[j]);
            }
            assert forall|i: int, j: int| 0 <= i < j < without(s, x).len() implies without(s, x)[i]
                != without(s, x)[j] by {
                if j >= r.len() {
                    assert(d.contains(r[i]));
                    let k = choose|k: int| 0 <= k < d.len() && d[k] == r[i];
                    assert(s[k] == r[i]);
                    assert(without(s, x)[j] == s.last());
                }
            }
        }
    }
}

/// After a file is added to the recent list it comes first, appears only
/// once, and the list holds at most ten entries; a list without repeated
/// entries stays without them.
pub proof fn lemma_recent_front(s: Seq<Seq<char>>, x: Seq<char>)
    ensures
        with_recent(s, x).len() >= 1,
        with_recent(s, x).len() <= MAX_RECENT,
        with_recent(s, x)[0] == x,
        forall|i: int| 0 < i < with_recent(s, x).len() ==> #[trigger] with_recent(s, x)[i] != x,
        (forall|i: int, j: int| 0 <= i < j < s.len() ==> s[i] != s[j]) ==> (forall|i: int, j: int|
            0 <= i < j < with_recent(s, x).len() ==> with_recent(s, x)[i] != with_recent(s, x)[j]),
{
    lemma_without(s, x);
    let t = seq![x] + without(s, x);
    assert forall|i: int| 0 < i < t.len() implies #[trigger] t[i] != x by {
        assert(t[i] == without(s, x)[i - 1]);
    }
    if forall|i: int, j: int| 0 <= i < j < s.len() ==> s[i] != s[j] {
        assert forall|i: int, j: int| 0 <= i < j < t.len() implies t[i] != t[j] by {
            if i > 0 {
                assert(t[i] == without(s, x)[i - 1] && t[j] == without(s, x)[j - 1]);
            }
        }
    }
}

/// Removing entries that are not there changes nothing.
proof fn lemma_without_absent(u: Seq<Seq<char>>, x: Seq<char>)
    requires
        forall|i: int| 0 <= i < u.len() ==> u[i] != x,
    ensures
        without(u, x) == u,
    decreases u.len(),
{
    if u.len() > 0 {
        lemma_without_absent(u.drop_last(), x);
        assert(u.drop_last().push(u.last()) =~= u);
    }
}

/// An entry in front that is removed anyway makes no difference.
proof fn lemma_without_front(x: Seq<char>, u: Seq<Seq<char>>)
    ensures
        without(seq![x] + u, x) == without(u, x),
    decreases u.len(),
{
    if u.len() == 0 {
        assert(seq![x] + u =~= seq![x]);
        assert(seq![x].drop_last() =~= Seq::<Seq<char>>::empty());
        assert(without(Seq::<Seq<char>>::empty(), x) == Seq::<Seq<char>>::empty());
        assert(without(seq![x], x) == without(Seq::<Seq<char>>::empty(), x));
    } else {
        lemma_without_front(x, u.drop_last());
        assert((seq![x] + u).drop_last() =~= seq![x] + u.drop_last());
        assert((seq![x] + u).last() == u.last());
    }
}

/// Opening or saving the same file twice in a row leaves the recent list
/// as once.
pub proof fn lemma_recent_idempotent(s: Seq<Seq<char>>, x: Seq<char>)
    ensures
        with_recent(with_recent(s, x), x) == with_recent(s, x),
{
    let t = with_recent(s, x);
    lemma_recent_front(s, x);
    let rest = t.drop_first();
    assert forall|i: int| 0 <= i < rest.len() implies rest[i] != x by {
        assert(rest[i] == t[i + 1]);
    }
    lemma_without_absent(rest, x);
    assert(t =~= seq![x] + rest);
    lemma_without_front(x, rest);
    assert(seq![x] + without(t, x) =~= t);
}

/// The recent-file list with `path` added in front.
pub(crate) fn add_to_recent(list: &Vec<String>, path: &String) -> (r: Vec<String>)
    ensures
        strings_view(r@) == with_recent(strings_view(list@), path@),
{
    let mut r: Vec<String> = Vec::new();
    r.push(path.clone());
    let mut k: usize = 0;
    let ghost s = strings_view(list@);
    let ghost x = path@;
    proof {
        assert(s.take(0) =~= Seq::<Seq<char>>::empty());
        assert(strings_view(r@) =~= seq![x] + without(s.take(0), x));
    }
    while k < list.len()
        invariant
            s == strings_view(list@),
            x == path@,
            k <= list@.len(),
            1 <= r@.len() <= MAX_RECENT,
            strings_view(r@) == {
                let t = seq![x] + without(s.take(k as int), x);
                if t.len() <= MAX_RECENT { t } else { t.take(MAX_RECENT as int) }
            },
        decreases list@.len() - k,
    {
        let ghost t0 = seq![x] + without(s.take(k as int), x);
        proof {
            assert(s.take(k + 1).drop_last() =~= s.take(k as int));
            assert(s.take(k + 1).last() == s[k as int]);
        }
        let same = list[k] == *path;
        proof {
            assert(list@[k as int]@ == s[k as int]);
        }
        if !same && r.len() < MAX_RECENT {
            let ghost r0 = r@;
            r.push(list[k].clone());
            proof {
                assert(strings_view(r0).len() == r0.len());
                assert(strings_view(r0) == t0);
                assert(without(s.take(k + 1), x) == without(s.take(k as int), x).push(s[k as int]));
                assert(strings_view(r@) =~= strings_view(r0).push(s[k as int]));
                assert(strings_view(r@) =~= seq![x] + without(s.take(k + 1), x));
            }
        } else {
            proof {
                let t1 = seq![x] + without(s.take(k + 1), x);
                if !same {
                    assert(t1 =~= t0.push(s[k as int]));
                    assert(t1.take(MAX_RECENT as int) =~= t0.take(MAX_RECENT as int));
                } else {
                    assert(t1 =~= t0);
                }
            }
        }
        k += 1;
    }
    proof {
        assert(s.take(list@.len() as int) =~= s);
    }
    r
}

/// `parts` joined with newlines.
pub open spec fn join_lines(parts: Seq<Seq<char>>) -> Seq<char>
    decreases parts.len(),
{
    if parts.len() == 0 {
        seq![]
    } else if parts.len() == 1 {
        parts[0]
    } else {
        join_lines(parts.drop_last()) + seq!['\n'] + parts.last()
    }
}

/// The strings of `list` joined with newlines.
pub fn join_with_newlines(list: &Vec<String>) -> (r: String)
    ensures
        r@ == join_lines(strings_view(list@)),
{
    let mut r = String::new();
    let mut k: usize = 0;
    let ghost s = strings_view(list@);
    while k < list.len()
        invariant
            s == strings_view(list@),
            k <= list@.len(),
            r@ == join_lines(s.take(k as int)),
        decreases list@.len() - k,
    {
        proof {
            assert(s.take(k + 1).drop_last() =~= s.take(k as int));
        }
        let ghost r0 = r@;
        if k > 0 {
            push_str(&mut r, "\n");
            proof {
                reveal_strlit("\n");
                assert(r@ =~= r0 + seq!['\n']);
            }
        }
        let ghost r1 = r@;
        push_str(&mut r, list[k].as_str());
        proof {
            assert(list@[k as int]@ == s[k as int]);
            assert(r@ =~= r1 + s[k as int]);
            if k == 0 {
                assert(s.take(1) =~= seq![s[0]]);
                assert(r@ =~= join_lines(s.take(1)));
            } else {
                let p = s.take(k + 1);
                assert(p.len() > 1);
                assert(p.last() == s[k as int]);
                assert(join_lines(p) == join_lines(p.drop_last()) + seq!['\n'] + p.last());
                assert(r@ =~= join_lines(s.take(k + 1)));
            }
        }
        k += 1;
    }
    proof {
        assert(s.take(list@.len() as int) =~= s);
    }
    r
}

/// The contents of the recent-files list file: one path per line.
pub fn recent_file_contents(list: &Vec<String>) -> (r: String)
    ensures
        r@ == join_lines(strings_view(list@)),
{
    join_with_newlines(list)
}

/// The non-empty lines of `s`.
pub open spec fn nonempty_lines(ls: Seq<Seq<char>>) -> Seq<Seq<char>>
    decreases ls.len(),
{
    if ls.len() == 0 {
        seq![]
    } else {
        let r = nonempty_lines(ls.drop_last());
        if ls.last().len() == 0 {
            r
        } else {
            r.push(ls.last())
        }
    }
}

/// The paths listed in a recent-files list file: its non-empty lines.
pub fn recent_from_file(contents: &str) -> (r: Vec<String>)
    ensures
        strings_view(r@) == nonempty_lines(lines_of(contents@)),
{
    let cs = chars_of(contents);
    let ranges = line_ranges(&cs);
    let ghost ls = lines_of(contents@);
    let mut r: Vec<String> = Vec::new();
    let mut k: usize = 0;
    while k < ranges.len()
        invariant
            cs@ == contents@,
            ls == lines_of(contents@),
            ranges@.len() == ls.len(),
            forall|q: int|
                #![trigger ranges@[q]]
                0 <= q < ranges@.len() ==> ranges@[q].0 <= ranges@[q].1 <= cs@.len() && cs@.subrange(
                    ranges@[q].0 as int,
                    ranges@[q].1 as int,
                ) == ls[q],
            k <= ranges@.len(),
            strings_view(r@) == nonempty_lines(ls.take(k as int)),
        decreases ranges@.len() - k,
    {
        let (a, b) = ranges[k];
        proof {
            assert(ls.take(k + 1).drop_last() =~= ls.take(k as int));
            assert(ls.take(k + 1).last() == ls[k as int]);
            assert(cs@.subrange(a as int, b as int) == ls[k as int]);
        }
        if b > a {
            r.push(string_from_chars(&cs, a, b));
            proof {
                assert(strings_view(r@) =~= nonempty_lines(ls.take(k + 1)));
            }
        }
        k += 1;
    }
    proof {
        assert(ls.take(ranges@.len() as int) =~= ls);
    }
    r
}

// ── History ───────────────────────────────────────────────────────────

/// A snapshot as values: text, time, and word count.
pub open spec fn entry_view(e: HistoryEntry) -> (Seq<char>, u64, usize) {
    (e.text@, e.timestamp, e.word_count)
}

/// The snapshots as values.
pub open spec fn history_view(h: Seq<HistoryEntry>) -> Seq<(Seq<char>, u64, usize)> {
    h.map_values(|e: HistoryEntry| entry_view(e))
}

/// The history after recording `e`: the oldest snapshot is dropped once
/// there are more than a hundred.
pub open spec fn pushed_history(h: Seq<(Seq<char>, u64, usize)>, e: (Seq<char>, u64, usize)) -> Seq<
    (Seq<char>, u64, usize),
> {
    let t = h.push(e);
    if t.len() > MAX_HISTORY { t.drop_first() } else { t }
}

/// Recording a snapshot keeps at most a hundred, the newest last.
pub proof fn lemma_history_bounded(h: Seq<(Seq<char>, u64, usize)>, e: (Seq<char>, u64, usize))
    requires
        h.len() <= MAX_HISTORY,
    ensures
        pushed_history(h, e).len() <= MAX_HISTORY,
        pushed_history(h, e).last() == e,
        h.len() < MAX_HISTORY ==> pushed_history(h, e) == h.push(e),
{
}

/// The history and the last snapshot text after a snapshot of `text` at
/// `now`: unchanged when `text` is the last snapshot text.
pub open spec fn snapshot_step(
    h: Seq<(Seq<char>, u64, usize)>,
    last: Seq<char>,
    text: Seq<char>,
    now: u64,
) -> (Seq<(Seq<char>, u64, usize)>, Seq<char>) {
    if text == last {
        (h, last)
    } else {
        (pushed_history(h, (text, now, count_words(text) as usize)), text)
    }
}

/// A second snapshot of an unchanged text records nothing, whenever it is
/// taken.
pub proof fn lemma_snapshot_once(
    h: Seq<(Seq<char>, u64, usize)>,
    last: Seq<char>,
    text: Seq<char>,
    t1: u64,
    t2: u64,
)
    ensures
        ({
            let once = snapshot_step(h, last, text, t1);
            snapshot_step(once.0, once.1, text, t2) == once
        }),
{
}

/// Appends a snapshot, dropping the oldest one beyond the limit.
pub(crate) fn push_snapshot(h: Vec<HistoryEntry>, e: HistoryEntry) -> (r: Vec<HistoryEntry>)
    ensures
        history_view(r@) == pushed_history(history_view(h@), entry_view(e)),
{
    let ghost old_h = history_view(h@);
    let ghost ev = entry_view(e);
    let mut h = h;
    h.push(e);
    proof {
        assert(history_view(h@) =~= old_h.push(ev));
    }
    if h.len() > MAX_HISTORY {
        h.remove(0);
        proof {
            assert(history_view(h@) =~= old_h.push(ev).drop_first());
        }
    }
    h
}

/// Words in a text, as the history records them.
pub open spec fn snapshot_words(t: Seq<char>) -> usize {
    count_words(t) as usize
}

/// Whether an AI reply needs no action: blank apart from whitespace.
pub open spec fn blank(t: Seq<char>) -> bool {
    crate::stats::all_ws(t)
}

impl Writer {
    /// At least one tab is open and the active one exists.
    pub open spec fn wf(&self) -> bool {
        self.tabs.len() >= 1 && self.active < self.tabs.len()
    }

    /// The text of the active tab.
    pub open spec fn text_view(&self) -> Seq<char> {
        self.tabs@[self.active as int].text@
    }

    /// The recent files, as texts.
    pub open spec fn recent_view(&self) -> Seq<Seq<char>> {
        strings_view(self.recent_files@)
    }

    /// The open tabs, the active tab and the cursor are the same.
    pub open spec fn same_doc(&self, other: &Writer) -> bool {
        &&& self.tabs@ == other.tabs@
        &&& self.active == other.active
        &&& self.cursor_byte_pos == other.cursor_byte_pos
    }

    /// The find and replace state is the same.
    pub open spec fn same_find(&self, other: &Writer) -> bool {
        &&& self.show_find == other.show_find
        &&& self.show_replace == other.show_replace
        &&& self.find_text == other.find_text
        &&& self.replace_text == other.replace_text
        &&& self.find_count == other.find_count
    }

    /// The display settings and panel switches are the same.
    pub open spec fn same_view(&self, other: &Writer) -> bool {
        &&& self.show_status == other.show_status
        &&& self.theme == other.theme
        &&& self.font_choice == other.font_choice
        &&& self.applied_font == other.applied_font
        &&& self.focus_mode == other.focus_mode
        &&& self.typewriter == other.typewriter
        &&& self.fullscreen == other.fullscreen
        &&& self.show_recent == other.show_recent
        &&& self.show_about == other.show_about
        &&& self.applied_titlebar == other.applied_titlebar
        &&& self.zen_mode == other.zen_mode
        &&& self.show_line_numbers == other.show_line_numbers
        &&& self.show_goal_settings == other.show_goal_settings
        &&& self.show_stats_panel == other.show_stats_panel
        &&& self.show_outline == other.show_outline
        &&& self.show_word_freq == other.show_word_freq
        &&& self.smart_typography == other.smart_typography
        &&& self.ai_show == other.ai_show
        &&& self.show_goto_line == other.show_goto_line
        &&& self.show_preview == other.show_preview
        &&& self.syntax_highlight == other.syntax_highlight
        &&& self.show_history == other.show_history
    }

    /// The recent files are the same.
    pub open spec fn same_recent(&self, other: &Writer) -> bool {
        self.recent_files == other.recent_files
    }

    /// The writing goal, the session start and the go-to-line input are the same.
    pub open spec fn same_goal(&self, other: &Writer) -> bool {
        &&& self.word_goal == other.word_goal
        &&& self.word_goal_input == other.word_goal_input
        &&& self.session_start_words == other.session_start_words
        &&& self.goto_line_input == other.goto_line_input
    }

    /// The history snapshots and what they were last taken of are the same.
    pub open spec fn same_history(&self, other: &Writer) -> bool {
        &&& self.history == other.history
        &&& self.last_snapshot_text == other.last_snapshot_text
        &&& self.last_snapshot_ms == other.last_snapshot_ms
    }

    /// The auto-save time and the save notice are the same.
    pub open spec fn same_clock(&self, other: &Writer) -> bool {
        &&& self.last_auto_save_ms == other.last_auto_save_ms
        &&& self.save_flash_ms == other.save_flash_ms
    }

    /// Recent files, goal, session, go-to-line input, history and clock
    /// readings are the same.
    pub open spec fn same_data(&self, other: &Writer) -> bool {
        &&& self.same_recent(other)
        &&& self.same_goal(other)
        &&& self.same_history(other)
        &&& self.same_clock(other)
    }

    /// The AI assistant state is the same.
    pub open spec fn same_ai(&self, other: &Writer) -> bool {
        &&& self.ai_model == other.ai_model
        &&& self.ai_action == other.ai_action
        &&& self.ai_custom_prompt == other.ai_custom_prompt
        &&& self.ai_result == other.ai_result
        &&& self.ai_loading == other.ai_loading
        &&& self.ai_error == other.ai_error
        &&& self.ai_host == other.ai_host
        &&& self.ai_available_models == other.ai_available_models
    }

    /// A fresh editor. Unless `skip_recovery` is set, a non-empty `recovered`
    /// text (saved by the last session) is restored into the first tab as an
    /// unsaved change; `recent` lists the recent files, of which the first ten
    /// are kept.
    pub fn new_with(skip_recovery: bool, recovered: Option<String>, recent: Vec<String>) -> (w:
        Writer)
        ensures
            w.wf(),
            w.tabs.len() == 1,
            w.active == 0,
            w.tabs@[0].file_path is None,
            match recovered {
                Some(t) => if !skip_recovery && t@.len() > 0 {
                    w.tabs@[0].text@ == t@ && w.tabs@[0].modified
                } else {
                    w.tabs@[0].text@ == Seq::<char>::empty() && !w.tabs@[0].modified
                },
                None => w.tabs@[0].text@ == Seq::<char>::empty() && !w.tabs@[0].modified,
            },
            w.recent_view() == strings_view(recent@).take(
                if recent@.len() <= MAX_RECENT { recent@.len() as int } else { MAX_RECENT as int },
            ),
            !w.show_find && !w.show_replace && w.find_text@.len() == 0 && w.replace_text@.len() == 0
                && w.find_count == 0,
            !w.show_status,
            w.theme == Theme::Cream,
            w.font_choice == FontChoice::MalgunGothic,
            w.applied_font == Some(FontChoice::MalgunGothic),
            w.focus_mode == FocusMode::Off,
            !w.typewriter && !w.fullscreen,
            w.cursor_byte_pos == 0,
            !w.show_recent && !w.show_about,
            w.applied_titlebar is None,
            !w.zen_mode && !w.show_line_numbers,
            w.word_goal == 0 && w.word_goal_input@.len() == 0 && !w.show_goal_settings,
            w.session_start_words == 0,
            !w.show_stats_panel && !w.show_outline && !w.show_word_freq,
            !w.smart_typography,
            !w.ai_show,
            w.ai_model@ == "gemma3"@,
            w.ai_action == AiAction::Proofread,
            w.ai_custom_prompt@.len() == 0,
            w.ai_result@.len() == 0,
            !w.ai_loading,
            w.ai_error@.len() == 0,
            w.ai_host@ == "http://localhost:11434"@,
            w.ai_available_models@.len() == 0,
            w.goto_line_input@.len() == 0 && !w.show_goto_line,
            !w.show_preview && !w.syntax_highlight,
            w.history@.len() == 0 && !w.show_history,
            w.last_snapshot_text@.len() == 0,
            w.last_auto_save_ms == 0 && w.last_snapshot_ms == 0 && w.save_flash_ms is None,
    {
        let mut tab = Tab::new();
        if !skip_recovery {
            match recovered {
                Some(t) => {
                    if !t.as_str().is_empty() {
                        tab.text = t;
                        tab.modified = true;
                    }
                },
                None => {},
            }
        }
        let mut recent_files: Vec<String> = Vec::new();
        let mut i: usize = 0;
        while i < recent.len() && i < MAX_RECENT
            invariant
                i <= recent@.len(),
                i <= MAX_RECENT,
                recent_files@.len() == i,
                forall|k: int| 0 <= k < i ==> #[trigger] recent_files@[k]@ == recent@[k]@,
            decreases recent@.len() - i,
        {
            recent_files.push(recent[i].clone());
            i += 1;
        }
        proof {
            assert(strings_view(recent_files@) =~= strings_view(recent@).take(i as int));
        }
        let mut tabs: Vec<Tab> = Vec::new();
        tabs.push(tab);
        Writer {
            tabs,
            active: 0,
            show_find: false,
            show_replace: false,
            find_text: String::new(),
            replace_text: String::new(),
            find_count: 0,
            show_status: false,
            theme: Theme::Cream,
            font_choice: FontChoice::MalgunGothic,
            applied_font: Some(FontChoice::MalgunGothic),
            focus_mode: FocusMode::Off,
            typewriter: false,
            fullscreen: false,
            cursor_byte_pos: 0,
            recent_files,
            show_recent: false,
            show_about: false,
            applied_titlebar: None,
            zen_mode: false,
            show_line_numbers: false,
            word_goal: 0,
            word_goal_input: String::new(),
            show_goal_settings: false,
            session_start_words: 0,
            show_stats_panel: false,
            show_outline: false,
            show_word_freq: false,
            smart_typography: false,
            ai_show: false,
            ai_model: "gemma3".to_owned(),
            ai_action: AiAction::Proofread,
            ai_custom_prompt: String::new(),
            ai_result: String::new(),
            ai_loading: false,
            ai_error: String::new(),
            ai_host: "http://localhost:11434".to_owned(),
            ai_available_models: Vec::new(),
            goto_line_input: String::new(),
            show_goto_line: false,
            show_preview: false,
            syntax_highlight: false,
            history: Vec::new(),
            show_history: false,
            last_snapshot_text: String::new(),
            last_auto_save_ms: 0,
            last_snapshot_ms: 0,
            save_flash_ms: None,
        }
    }

    /// The text of the active tab.
    pub fn active_text(&self) -> (r: &str)
        requires
            self.wf(),
        ensures
            r@ == self.text_view(),
    {
        self.tabs[self.active].text.as_str()
    }

    /// Replaces the text of the active tab and sets its modified flag.
    #[verifier::spinoff_prover]
    pub(crate) fn set_active_text(&mut self, text: String, modified: bool)
        requires
            old(self).wf(),
        ensures
            tab_text_set(old(self).tabs@, final(self).tabs@, old(self).active as int, text@, modified),
            final(self).active == old(self).active,
            final(self).cursor_byte_pos == old(self).cursor_byte_pos,
            final(self).same_find(old(self)),
            final(self).same_view(old(self)),
            final(self).same_data(old(self)),
            final(self).same_ai(old(self)),
    {
        let i = self.active;
        let mut t = self.tabs.remove(i);
        t.text = text;
        t.modified = modified;
        self.tabs.insert(i, t);
        proof {
            assert forall|k: int| 0 <= k < self.tabs@.len() && k != i implies #[trigger] self.tabs@[k]
                == old(self).tabs@[k] by {
                if k < i {
                } else {
                }
            }
        }
    }

    /// Moves the tabs out, leaving none.
    #[verifier::spinoff_prover]
    pub(crate) fn take_tabs(&mut self) -> (tabs: Vec<Tab>)
        ensures
            tabs@ == old(self).tabs@,
            final(self).tabs@.len() == 0,
            final(self).active == old(self).active,
            final(self).cursor_byte_pos == old(self).cursor_byte_pos,
            final(self).same_find(old(self)),
            final(self).same_view(old(self)),
            final(self).same_data(old(self)),
            final(self).same_ai(old(self)),
    {
        let mut tabs: Vec<Tab> = Vec::new();
        std::mem::swap(&mut tabs, &mut self.tabs);
        tabs
    }

    // ── Tabs ──────────────────────────────────────────────────────────

    /// Opens a new empty tab and makes it active.
    #[verifier::spinoff_prover]
    pub fn new_tab(&mut self)
        requires
            old(self).wf(),
        ensures
            final(self).wf(),
            final(self).tabs@.len() == old(self).tabs@.len() + 1,
            final(self).tabs@.take(old(self).tabs@.len() as int) == old(self).tabs@,
            final(self).tabs@.last().text@ == Seq::<char>::empty(),
            final(self).tabs@.last().file_path is None,
            !final(self).tabs@.last().modified,
            final(self).active == old(self).tabs@.len(),
            final(self).cursor_byte_pos == 0,
            final(self).same_find(old(self)),
            final(self).same_view(old(self)),
            final(self).same_data(old(self)),
            final(self).same_ai(old(self)),
    {
        self.tabs.push(Tab::new());
        self.active = self.tabs.len() - 1;
        self.cursor_byte_pos = 0;
        proof {
            assert(self.tabs@.take(old(self).tabs@.len() as int) =~= old(self).tabs@);
        }
    }

    /// Closes the active tab unless it is the only one; the tab after it, or
    /// the new last tab, becomes active.
    #[verifier::spinoff_prover]
    #[verifier::rlimit(40)]
    pub fn close_tab(&mut self)
        requires
            old(self).wf(),
        ensures
            final(self).wf(),
            final(self).tabs@ == closed_tabs(old(self).tabs@, old(self).active as int),
            final(self).active == closed_active(old(self).tabs@.len() as int, old(self).active as int),
            final(self).cursor_byte_pos == if old(self).tabs@.len() > 1 {
                0
            } else {
                old(self).cursor_byte_pos
            },
            final(self).same_find(old(self)),
            final(self).same_view(old(self)),
            final(self).same_data(old(self)),
            final(self).same_ai(old(self)),
    {
        let i = self.active;
        let cursor = self.cursor_byte_pos;
        let tabs = self.take_tabs();
        let (tabs, active, closed) = close_in(tabs, i);
        self.tabs = tabs;
        self.active = active;
        self.cursor_byte_pos = if closed { 0 } else { cursor };
    }

    /// Makes tab `i` active and puts the cursor at its start.
    #[verifier::spinoff_prover]
    pub fn switch_tab(&mut self, i: usize)
        requires
            old(self).wf(),
            i < old(self).tabs@.len(),
        ensures
            final(self).wf(),
            final(self).tabs == old(self).tabs,
            final(self).active == i,
            final(self).cursor_byte_pos == 0,
            final(self).same_find(old(self)),
            final(self).same_view(old(self)),
            final(self).same_data(old(self)),
            final(self).same_ai(old(self)),
    {
        self.active = i;
        self.cursor_byte_pos = 0;
    }

    // ── Find & replace ────────────────────────────────────────────────

    /// The number of case-insensitive matches of the find text in the active
    /// tab; zero when the find text is empty.
    pub open spec fn spec_find_count(&self) -> int {
        if self.find_text@.len() == 0 {
            0
        } else {
            let n = matches_from(
                encode_utf8(lowercase(self.text_view())),
                encode_utf8(lowercase(self.find_text@)),
                0,
            ).len();
            if n <= usize::MAX { n as int } else { usize::MAX as int }
        }
    }

    /// The number of case-insensitive matches of the find text in the active tab.
    pub fn find_count_of(&self) -> (n: usize)
        requires
            self.wf(),
        ensures
            n == self.spec_find_count(),
    {
        if self.find_text.as_str().is_empty() {
            0
        } else {
            let lower = to_lower(self.tabs[self.active].text.as_str());
            let pat = to_lower(self.find_text.as_str());
            count_matches(lower.as_str(), pat.as_str())
        }
    }

    /// Counts the case-insensitive matches of the find text in the active tab.
    #[verifier::spinoff_prover]
    pub fn update_find_count(&mut self)
        requires
            old(self).wf(),
        ensures
            final(self).find_count == old(self).spec_find_count(),
            final(self).same_doc(old(self)),
            final(self).show_find == old(self).show_find,
            final(self).show_replace == old(self).show_replace,
            final(self).find_text == old(self).find_text,
            final(self).replace_text == old(self).replace_text,
            final(self).same_view(old(self)),
            final(self).same_data(old(self)),
            final(self).same_ai(old(self)),
    {
        self.find_count = self.find_count_of();
    }

    /// The byte range of the active text that the first case-insensitive
    /// match designates: it starts where the match starts in the lowercased
    /// text and is as long as the find text.
    pub open spec fn first_match_range(&self) -> (int, int) {
        let m = next_match(
            encode_utf8(lowercase(self.text_view())),
            encode_utf8(lowercase(self.find_text@)),
            0,
        );
        (m, m + encode_utf8(self.find_text@).len())
    }

    /// Whether the first match can be replaced: the find text is empty, there
    /// is no match, or the range the match designates in the text lies
    /// between character boundaries. Lowercasing can change byte lengths, and
    /// then the range may cut a character, where slicing the text fails.
    pub open spec fn replace_next_fits(&self) -> bool {
        let (a, b) = self.first_match_range();
        self.find_text@.len() == 0 || a < 0 || fits(encode_utf8(self.text_view()), a, b)
    }

    /// `self` is what replacing the first match makes of `old`: the match
    /// range replaced by the replacement text, the tab marked modified and the
    /// match count recomputed; nothing changes when the find text is empty or
    /// there is no match.
    pub open spec fn replaced_next_from(&self, old: &Writer) -> bool {
        let t = encode_utf8(old.text_view());
        let (a, b) = old.first_match_range();
        if old.find_text@.len() > 0 && a >= 0 {
            &&& tab_text_set(old.tabs@, self.tabs@, old.active as int, self.text_view(), true)
            &&& encode_utf8(self.text_view()) == t.subrange(0, a) + encode_utf8(old.replace_text@)
                + t.subrange(b, t.len() as int)
            &&& self.find_count == self.spec_find_count()
            &&& self.active == old.active
            &&& self.cursor_byte_pos == old.cursor_byte_pos
            &&& self.show_find == old.show_find
            &&& self.show_replace == old.show_replace
            &&& self.find_text == old.find_text
            &&& self.replace_text == old.replace_text
            &&& self.same_view(old)
            &&& self.same_data(old)
            &&& self.same_ai(old)
        } else {
            self.same_doc(old) && self.same_find(old) && self.same_view(old) && self.same_data(old)
                && self.same_ai(old)
        }
    }

    /// Replaces the first case-insensitive match of the find text in the
    /// active tab.
    #[verifier::spinoff_prover]
    pub fn replace_next(&mut self)
        requires
            old(self).wf(),
            old(self).replace_next_fits(),
        ensures
            final(self).wf(),
            final(self).replaced_next_from(old(self)),
    {
        if self.find_text.as_str().is_empty() {
            return;
        }
        let lower = to_lower(self.tabs[self.active].text.as_str());
        let pat = to_lower(self.find_text.as_str());
        match find_match(lower.as_str(), pat.as_str(), 0) {
            Some(pos) => {
                let text = self.tabs[self.active].text.as_str();
                let flen = self.find_text.as_str().as_bytes().len();
                let tlen = text.as_bytes().len();
                proof {
                    assert(pos as int == self.first_match_range().0);
                    assert(fits(encode_utf8(self.text_view()), pos as int, pos + flen));
                }
                let new_text = splice(text, pos, pos + flen, self.replace_text.as_str());
                self.set_active_text(new_text, true);
                self.update_find_count();
            },
            None => {},
        }
    }

    /// Whether the first match can be replaced, as `replace_next` needs.
    pub fn can_replace_next(&self) -> (r: bool)
        requires
            self.wf(),
        ensures
            r == self.replace_next_fits(),
    {
        if self.find_text.as_str().is_empty() {
            return true;
        }
        let lower = to_lower(self.tabs[self.active].text.as_str());
        let pat = to_lower(self.find_text.as_str());
        match find_match(lower.as_str(), pat.as_str(), 0) {
            Some(pos) => {
                let text = self.tabs[self.active].text.as_str();
                let flen = self.find_text.as_str().as_bytes().len();
                let tlen = text.as_bytes().len();
                flen <= tlen && pos <= tlen - flen && text.is_char_boundary(pos)
                    && text.is_char_boundary(pos + flen)
            },
            None => true,
        }
    }

    /// Replaces the first match where that can be done, and says whether it
    /// could; otherwise nothing changes.
    pub fn try_replace_next(&mut self) -> (done: bool)
        requires
            old(self).wf(),
        ensures
            final(self).wf(),
            done == old(self).replace_next_fits(),
            done ==> final(self).replaced_next_from(old(self)),
            !done ==> *final(self) == *old(self),
    {
        if self.can_replace_next() {
            self.replace_next();
            true
        } else {
            false
        }
    }

    /// The active text, as bytes, with every match replaced; `None` when a
    /// piece of the text to keep does not lie between character boundaries.
    pub open spec fn all_replaced(&self) -> Option<Seq<u8>> {
        splice_all(
            encode_utf8(self.text_view()),
            matches_from(encode_utf8(lowercase(self.text_view())), encode_utf8(lowercase(self.find_text@)), 0),
            0,
            encode_utf8(self.find_text@).len() as int,
            encode_utf8(self.replace_text@),
        )
    }

    /// Whether every match can be replaced: the find text is empty, or every
    /// piece of the text to keep lies between character boundaries.
    pub open spec fn replace_all_fits(&self) -> bool {
        self.find_text@.len() == 0 || self.all_replaced() is Some
    }

    /// `self` is what replacing every match makes of `old`: the text with
    /// every match replaced, the tab marked modified when its text changed,
    /// and the match count recomputed; nothing changes when the find text is
    /// empty.
    pub open spec fn replaced_all_from(&self, old: &Writer) -> bool {
        if old.find_text@.len() == 0 || old.all_replaced() is None {
            self.same_doc(old) && self.same_find(old) && self.same_view(old) && self.same_data(old)
                && self.same_ai(old)
        } else {
            &&& encode_utf8(self.text_view()) == old.all_replaced()->0
            &&& tab_text_set(old.tabs@, self.tabs@, old.active as int, self.text_view(),
                if self.text_view() == old.text_view() {
                    old.tabs@[old.active as int].modified
                } else {
                    true
                })
            &&& self.find_count == self.spec_find_count()
            &&& self.active == old.active
            &&& self.cursor_byte_pos == old.cursor_byte_pos
            &&& self.show_find == old.show_find
            &&& self.show_replace == old.show_replace
            &&& self.find_text == old.find_text
            &&& self.replace_text == old.replace_text
            &&& self.same_view(old)
            &&& self.same_data(old)
            &&& self.same_ai(old)
        }
    }

    /// Replaces every case-insensitive match of the find text in the active
    /// tab.
    #[verifier::spinoff_prover]
    pub fn replace_all(&mut self)
        requires
            old(self).wf(),
            old(self).replace_all_fits(),
        ensures
            final(self).wf(),
            ({
                let t = encode_utf8(old(self).text_view());
                let r = splice_all(
                    t,
                    matches_from(
                        encode_utf8(lowercase(old(self).text_view())),
                        encode_utf8(lowercase(old(self).find_text@)),
                        0,
                    ),
                    0,
                    encode_utf8(old(self).find_text@).len() as int,
                    encode_utf8(old(self).replace_text@),
                );
                if old(self).find_text@.len() == 0 || r is None {
                    final(self).same_doc(old(self)) && final(self).same_find(old(self)) && final(self).same_view(old(self)) && final(self).same_data(old(self)) && final(self).same_ai(old(self))
                } else {
                    &&& encode_utf8(final(self).text_view()) == r->0
                    &&& tab_text_set(old(self).tabs@, final(self).tabs@, old(self).active as int,
                        final(self).text_view(), if final(self).text_view() == old(self).text_view() {
                            old(self).tabs@[old(self).active as int].modified
                        } else {
                            true
                        })
                    &&& final(self).find_count == final(self).spec_find_count()
                    &&& final(self).active == old(self).active
                    &&& final(self).cursor_byte_pos == old(self).cursor_byte_pos
                    &&& final(self).show_find == old(self).show_find
                    &&& final(self).show_replace == old(self).show_replace
                    &&& final(self).find_text == old(self).find_text
                    &&& final(self).replace_text == old(self).replace_text
                    &&& final(self).same_view(old(self))
                    &&& final(self).same_data(old(self))
                    &&& final(self).same_ai(old(self))
                }
            }),
    {
        if self.find_text.as_str().is_empty() {
            return;
        }
        let lower = to_lower(self.tabs[self.active].text.as_str());
        let pat = to_lower(self.find_text.as_str());
        let flen = self.find_text.as_str().as_bytes().len();
        let result = replace_all_text(
            self.tabs[self.active].text.as_str(),
            lower.as_str(),
            pat.as_str(),
            flen,
            self.replace_text.as_str(),
        );
        match result {
            Some(r) => {
                if self.tabs[self.active].text != r {
                    self.set_active_text(r, true);
                }
                self.update_find_count();
            },
            None => {},
        }
    }

    /// Whether every match can be replaced, as `replace_all` needs.
    pub fn can_replace_all(&self) -> (r: bool)
        requires
            self.wf(),
        ensures
            r == self.replace_all_fits(),
    {
        if self.find_text.as_str().is_empty() {
            return true;
        }
        let lower = to_lower(self.tabs[self.active].text.as_str());
        let pat = to_lower(self.find_text.as_str());
        let flen = self.find_text.as_str().as_bytes().len();
        let result = replace_all_text(
            self.tabs[self.active].text.as_str(),
            lower.as_str(),
            pat.as_str(),
            flen,
            self.replace_text.as_str(),
        );
        result.is_some()
    }

    /// Replaces every match where that can be done, and says whether it
    /// could; otherwise nothing changes.
    pub fn try_replace_all(&mut self) -> (done: bool)
        requires
            old(self).wf(),
        ensures
            final(self).wf(),
            done == old(self).replace_all_fits(),
            done ==> final(self).replaced_all_from(old(self)),
            !done ==> *final(self) == *old(self),
    {
        if self.can_replace_all() {
            self.replace_all();
            true
        } else {
            false
        }
    }

    // ── Statistics ────────────────────────────────────────────────────

    /// Number of words in the active tab.
    pub fn word_count(&self) -> (n: usize)
        requires
            self.wf(),
        ensures
            n == count_words(self.text_view()),
    {
        count_words_in(self.tabs[self.active].text.as_str())
    }

    /// Number of characters in the active tab.
    pub fn char_count(&self) -> (n: usize)
        requires
            self.wf(),
        ensures
            n == self.text_view().len(),
    {
        let cs = chars_of(self.tabs[self.active].text.as_str());
        cs.len()
    }

    /// Number of non-whitespace characters in the active tab.
    pub fn char_count_nospaces(&self) -> (n: usize)
        requires
            self.wf(),
        ensures
            n == count_non_ws_spec(self.text_view()),
    {
        count_non_ws_in(self.tabs[self.active].text.as_str())
    }

    /// Number of lines in the active tab (one for an empty text).
    pub fn line_count(&self) -> (n: usize)
        requires
            self.wf(),
        ensures
            n == spec_line_count(self.text_view()),
    {
        line_count_of(self.tabs[self.active].text.as_str())
    }

    /// Number of sentences in the active tab.
    pub fn sentence_count(&self) -> (n: usize)
        requires
            self.wf(),
        ensures
            n == spec_sentence_count(self.text_view()),
    {
        sentence_count_of(self.tabs[self.active].text.as_str())
    }

    /// Number of paragraphs in the active tab.
    pub fn paragraph_count(&self) -> (n: usize)
        requires
            self.wf(),
        ensures
            n == spec_paragraph_count(self.text_view()),
    {
        paragraph_count_of(self.tabs[self.active].text.as_str())
    }

    /// The Markdown headings of the active tab: line number (from one),
    /// heading text and level.
    pub fn outline_entries(&self) -> (r: Vec<(usize, String, usize)>)
        requires
            self.wf(),
        ensures
            r@.map_values(|e: (usize, String, usize)| (e.0 as int, e.1@, e.2 as int)) == spec_outline(
                self.text_view(),
            ),
    {
        outline_of(self.tabs[self.active].text.as_str())
    }

    /// Number of pages at 250 words a page, rounded up.
    pub fn page_count(&self) -> (n: usize)
        requires
            self.wf(),
        ensures
            n == (count_words(self.text_view()) + 249) / 250,
    {
        let words = self.word_count();
        words / 250 + if words % 250 == 0 { 0 } else { 1 }
    }

    /// Words written this session: the word count above the count at the
    /// start of the session, never below zero.
    pub fn session_words(&self) -> (n: usize)
        requires
            self.wf(),
        ensures
            n == if count_words(self.text_view()) >= self.session_start_words {
                count_words(self.text_view()) - self.session_start_words
            } else {
                0
            },
    {
        let w = self.word_count();
        if w >= self.session_start_words {
            w - self.session_start_words
        } else {
            0
        }
    }
}

} // verus!
