//! Keyboard shortcuts: what a key press does to the editor state, and what
//! the caller has to do for it (dialogs, files, the window, font sizes).
use vstd::prelude::*;
use crate::settings::{Theme, FocusMode, theme_after, focus_after};
use crate::tab::{Tab, untouched};
use crate::writer::{Writer, closed_tabs, closed_active, close_in};

verus! {

/// The keys the editor reacts to.
#[derive(Clone, Copy, Debug, PartialEq, Eq, Structural)]
pub enum Key {
    N,
    O,
    S,
    W,
    Tab,
    F,
    H,
    D,
    B,
    E,
    R,
    G,
    J,
    Equals,
    Minus,
    L,
    I,
    U,
    K,
    M,
    T,
    A,
    P,
    Enter,
    F11,
    Escape,
}

/// What the caller does after a key press.
#[derive(Clone, Copy, Debug, PartialEq, Eq, Structural)]
pub enum KeyAction {
    Nothing,
    NewWindow,
    OpenFile,
    Save,
    SaveAs,
    ExportHtml,
    FetchModels,
    FontLarger,
    FontSmaller,
    CycleLineSpacing,
    SetFullscreen(bool),
}

/// What a key press does to the open tabs.
#[derive(Clone, Copy, Debug, PartialEq, Eq, Structural)]
pub enum TabChange {
    Keep,
    Open,
    Close,
    Next,
    Previous,
}

/// The panel switches and display settings a key press can change.
#[derive(Clone, Copy, Debug, PartialEq, Eq, Structural)]
pub struct Panels {
    pub show_find: bool,
    pub show_replace: bool,
    pub show_status: bool,
    pub theme: Theme,
    pub focus_mode: FocusMode,
    pub typewriter: bool,
    pub fullscreen: bool,
    pub show_recent: bool,
    pub zen_mode: bool,
    pub show_line_numbers: bool,
    pub show_goal_settings: bool,
    pub show_stats_panel: bool,
    pub show_outline: bool,
    pub show_word_freq: bool,
    pub smart_typography: bool,
    pub ai_show: bool,
    pub show_goto_line: bool,
    pub show_preview: bool,
    pub syntax_highlight: bool,
    pub show_history: bool,
}

/// Whether `key` was pressed with Ctrl, and with Shift when `shift_wanted`
/// says so (`None`: either way).
pub open spec fn chord(key: Key, k: Key, ctrl: bool, shift: bool, shift_wanted: Option<bool>) -> bool {
    ctrl && key == k && match shift_wanted {
        Some(w) => shift == w,
        None => true,
    }
}

/// `b`, switched when `when` holds.
pub open spec fn flip(b: bool, when: bool) -> bool {
    if when { !b } else { b }
}

/// `b`, turned off by Escape.
pub open spec fn unless_escape(b: bool, key: Key) -> bool {
    if key == Key::Escape { false } else { b }
}

/// The find bar after a key: Ctrl+F toggles it, Ctrl+H opens it, Escape
/// closes it.
pub open spec fn find_after(p: Panels, key: Key, ctrl: bool) -> bool {
    if chord(key, Key::F, ctrl, false, None) {
        !p.show_find
    } else if chord(key, Key::H, ctrl, false, None) {
        true
    } else {
        unless_escape(p.show_find, key)
    }
}

/// The replace bar after a key: closing the find bar with Ctrl+F closes
/// it, Ctrl+H toggles it, Escape closes it.
pub open spec fn replace_after(p: Panels, key: Key, ctrl: bool) -> bool {
    if chord(key, Key::F, ctrl, false, None) {
        if p.show_find { false } else { p.show_replace }
    } else if chord(key, Key::H, ctrl, false, None) {
        !p.show_replace
    } else {
        unless_escape(p.show_replace, key)
    }
}

/// Fullscreen after a key: entering zen mode enters it, F11 toggles it,
/// Escape leaves it.
pub open spec fn fullscreen_after(p: Panels, key: Key, ctrl: bool, shift: bool) -> bool {
    if chord(key, Key::Enter, ctrl, shift, Some(true)) {
        if !p.zen_mode { true } else { p.fullscreen }
    } else if key == Key::F11 {
        !p.fullscreen
    } else {
        unless_escape(p.fullscreen, key)
    }
}

/// The switches after pressing `key` with the given modifiers: Ctrl with
/// F, H, R, K toggles find, replace, recent files and the goal window; Ctrl
/// with D and G cycle the theme and the focus mode, Ctrl+Shift+G toggles
/// highlighting; Ctrl with B, J, I, U, M, T, P toggles the status bar (with
/// Shift: history), typewriter mode, statistics, outline, word frequency,
/// smart typography and go-to-line (with Shift: preview); Ctrl+Shift with L
/// and A toggles line numbers and the assistant; Ctrl+Shift+Enter toggles
/// zen mode, entering fullscreen with it; F11 toggles fullscreen; Escape
/// closes the bars and windows and leaves zen mode and fullscreen.
pub open spec fn panels_after(p: Panels, key: Key, ctrl: bool, shift: bool) -> Panels {
    Panels {
        show_find: find_after(p, key, ctrl),
        show_replace: replace_after(p, key, ctrl),
        show_status: flip(p.show_status, chord(key, Key::B, ctrl, shift, Some(false))),
        theme: if chord(key, Key::D, ctrl, shift, None) { theme_after(p.theme) } else { p.theme },
        focus_mode: if chord(key, Key::G, ctrl, shift, Some(false)) {
            focus_after(p.focus_mode)
        } else {
            p.focus_mode
        },
        typewriter: flip(p.typewriter, chord(key, Key::J, ctrl, shift, None)),
        fullscreen: fullscreen_after(p, key, ctrl, shift),
        show_recent: unless_escape(flip(p.show_recent, chord(key, Key::R, ctrl, shift, None)), key),
        zen_mode: unless_escape(flip(p.zen_mode, chord(key, Key::Enter, ctrl, shift, Some(true))), key),
        show_line_numbers: flip(p.show_line_numbers, chord(key, Key::L, ctrl, shift, Some(true))),
        show_goal_settings: unless_escape(
            flip(p.show_goal_settings, chord(key, Key::K, ctrl, shift, None)),
            key,
        ),
        show_stats_panel: flip(p.show_stats_panel, chord(key, Key::I, ctrl, shift, None)),
        show_outline: flip(p.show_outline, chord(key, Key::U, ctrl, shift, None)),
        show_word_freq: flip(p.show_word_freq, chord(key, Key::M, ctrl, shift, None)),
        smart_typography: flip(p.smart_typography, chord(key, Key::T, ctrl, shift, None)),
        ai_show: flip(p.ai_show, chord(key, Key::A, ctrl, shift, Some(true))),
        show_goto_line: flip(p.show_goto_line, chord(key, Key::P, ctrl, shift, Some(false))),
        show_preview: flip(p.show_preview, chord(key, Key::P, ctrl, shift, Some(true))),
        syntax_highlight: flip(p.syntax_highlight, chord(key, Key::G, ctrl, shift, Some(true))),
        show_history: flip(p.show_history, chord(key, Key::B, ctrl, shift, Some(true))),
    }
}

/// What the caller does after pressing `key`; `no_models` tells whether
/// the assistant has no model list yet.
pub open spec fn key_action(p: Panels, key: Key, ctrl: bool, shift: bool, no_models: bool) -> KeyAction {
    match key {
        Key::N => if ctrl && !shift { KeyAction::NewWindow } else { KeyAction::Nothing },
        Key::O => if ctrl { KeyAction::OpenFile } else { KeyAction::Nothing },
        Key::S => if ctrl && shift {
            KeyAction::SaveAs
        } else if ctrl {
            KeyAction::Save
        } else {
            KeyAction::Nothing
        },
        Key::E => if ctrl { KeyAction::ExportHtml } else { KeyAction::Nothing },
        Key::Equals => if ctrl { KeyAction::FontLarger } else { KeyAction::Nothing },
        Key::Minus => if ctrl { KeyAction::FontSmaller } else { KeyAction::Nothing },
        Key::L => if ctrl && !shift { KeyAction::CycleLineSpacing } else { KeyAction::Nothing },
        Key::A => if ctrl && shift && !p.ai_show && no_models {
            KeyAction::FetchModels
        } else {
            KeyAction::Nothing
        },
        Key::Enter => if ctrl && shift && !p.zen_mode && !p.fullscreen {
            KeyAction::SetFullscreen(true)
        } else {
            KeyAction::Nothing
        },
        Key::F11 => KeyAction::SetFullscreen(!p.fullscreen),
        Key::Escape => if p.fullscreen { KeyAction::SetFullscreen(false) } else { KeyAction::Nothing },
        _ => KeyAction::Nothing,
    }
}

/// What pressing `key` does to the tabs.
pub open spec fn tab_change(key: Key, ctrl: bool, shift: bool) -> TabChange {
    match key {
        Key::N => if ctrl && shift { TabChange::Open } else { TabChange::Keep },
        Key::W => if ctrl { TabChange::Close } else { TabChange::Keep },
        Key::Tab => if ctrl && shift {
            TabChange::Previous
        } else if ctrl {
            TabChange::Next
        } else {
            TabChange::Keep
        },
        _ => TabChange::Keep,
    }
}

/// The tab after `a` of `n`, going round.
pub open spec fn next_tab(a: int, n: int) -> int {
    if n > 1 { (a + 1) % n } else { a }
}

/// The tab before `a` of `n`, going round.
pub open spec fn previous_tab(a: int, n: int) -> int {
    if n > 1 { if a == 0 { n - 1 } else { a - 1 } } else { a }
}

/// Whether `key` was pressed with Ctrl, and with Shift as `shift_wanted` says.
fn chord_of(key: Key, k: Key, ctrl: bool, shift: bool, shift_wanted: Option<bool>) -> (r: bool)
    ensures
        r == chord(key, k, ctrl, shift, shift_wanted),
{
    ctrl && key == k && match shift_wanted {
        Some(w) => shift == w,
        None => true,
    }
}

/// `b`, switched when `when` holds.
fn flip_if(b: bool, when: bool) -> (r: bool)
    ensures
        r == flip(b, when),
{
    if when { !b } else { b }
}

/// `b`, turned off by Escape.
fn unless_escape_of(b: bool, key: Key) -> (r: bool)
    ensures
        r == unless_escape(b, key),
{
    if matches!(key, Key::Escape) { false } else { b }
}

/// The find bar after a key.
fn find_after_of(p: Panels, key: Key, ctrl: bool) -> (r: bool)
    ensures
        r == find_after(p, key, ctrl),
{
    if chord_of(key, Key::F, ctrl, false, None) {
        !p.show_find
    } else if chord_of(key, Key::H, ctrl, false, None) {
        true
    } else {
        unless_escape_of(p.show_find, key)
    }
}

/// The replace bar after a key.
fn replace_after_of(p: Panels, key: Key, ctrl: bool) -> (r: bool)
    ensures
        r == replace_after(p, key, ctrl),
{
    if chord_of(key, Key::F, ctrl, false, None) {
        if p.show_find { false } else { p.show_replace }
    } else if chord_of(key, Key::H, ctrl, false, None) {
        !p.show_replace
    } else {
        unless_escape_of(p.show_replace, key)
    }
}

/// Fullscreen after a key.
fn fullscreen_after_of(p: Panels, key: Key, ctrl: bool, shift: bool) -> (r: bool)
    ensures
        r == fullscreen_after(p, key, ctrl, shift),
{
    if chord_of(key, Key::Enter, ctrl, shift, Some(true)) {
        if !p.zen_mode { true } else { p.fullscreen }
    } else if matches!(key, Key::F11) {
        !p.fullscreen
    } else {
        unless_escape_of(p.fullscreen, key)
    }
}

/// The theme after a key.
fn theme_after_of(p: Panels, key: Key, ctrl: bool, shift: bool) -> (r: Theme)
    ensures
        r == (if chord(key, Key::D, ctrl, shift, None) { theme_after(p.theme) } else { p.theme }),
{
    if chord_of(key, Key::D, ctrl, shift, None) { p.theme.next() } else { p.theme }
}

/// The focus mode after a key.
fn focus_after_of(p: Panels, key: Key, ctrl: bool, shift: bool) -> (r: FocusMode)
    ensures
        r == (if chord(key, Key::G, ctrl, shift, Some(false)) {
            focus_after(p.focus_mode)
        } else {
            p.focus_mode
        }),
{
    if chord_of(key, Key::G, ctrl, shift, Some(false)) { p.focus_mode.next() } else { p.focus_mode }
}

/// The active tab after `k` presses of Ctrl+Tab from tab `a` of `n`.
pub open spec fn tab_after_presses(a: int, n: int, k: nat) -> int
    decreases k,
{
    if k == 0 {
        a
    } else {
        next_tab(tab_after_presses(a, n, (k - 1) as nat), n)
    }
}

/// `k` presses of Ctrl+Tab move `k` tabs on, going round.
proof fn lemma_presses_move(a: int, n: int, k: nat)
    requires
        1 < n,
        0 <= a < n,
    ensures
        tab_after_presses(a, n, k) == (a + k) % n,
    decreases k,
{
    if k == 0 {
        vstd::arithmetic::div_mod::lemma_small_mod(a as nat, n as nat);
    } else {
        lemma_presses_move(a, n, (k - 1) as nat);
        vstd::arithmetic::div_mod::lemma_add_mod_noop_right(1, a + k - 1, n);
    }
}

/// Pressing Ctrl+Tab once per open tab comes back to the tab one started
/// from, and fewer presses do not.
pub proof fn lemma_tab_cycle(a: int, n: int)
    requires
        1 < n,
        0 <= a < n,
    ensures
        tab_after_presses(a, n, n as nat) == a,
        forall|k: nat| 0 < k < n ==> #[trigger] tab_after_presses(a, n, k) != a,
{
    lemma_presses_move(a, n, n as nat);
    vstd::arithmetic::div_mod::lemma_mod_add_multiples_vanish(a, n);
    vstd::arithmetic::div_mod::lemma_small_mod(a as nat, n as nat);
    assert forall|k: nat| 0 < k < n implies #[trigger] tab_after_presses(a, n, k) != a by {
        lemma_presses_move(a, n, k);
        if a + k < n {
            vstd::arithmetic::div_mod::lemma_small_mod((a + k) as nat, n as nat);
        } else {
            vstd::arithmetic::div_mod::lemma_mod_add_multiples_vanish(a + k - n, n);
            vstd::arithmetic::div_mod::lemma_small_mod((a + k - n) as nat, n as nat);
        }
    }
}

/// The switches after a key press.
pub fn next_panels(p: Panels, key: Key, ctrl: bool, shift: bool) -> (r: Panels)
    ensures
        r == panels_after(p, key, ctrl, shift),
{
    let show_find = find_after_of(p, key, ctrl);
    let show_replace = replace_after_of(p, key, ctrl);
    let show_status = flip_if(p.show_status, chord_of(key, Key::B, ctrl, shift, Some(false)));
    let theme = theme_after_of(p, key, ctrl, shift);
    let focus_mode = focus_after_of(p, key, ctrl, shift);
    let typewriter = flip_if(p.typewriter, chord_of(key, Key::J, ctrl, shift, None));
    let fullscreen = fullscreen_after_of(p, key, ctrl, shift);
    let recent = flip_if(p.show_recent, chord_of(key, Key::R, ctrl, shift, None));
    let show_recent = unless_escape_of(recent, key);
    let zen = flip_if(p.zen_mode, chord_of(key, Key::Enter, ctrl, shift, Some(true)));
    let zen_mode = unless_escape_of(zen, key);
    let show_line_numbers = flip_if(p.show_line_numbers, chord_of(key, Key::L, ctrl, shift, Some(true)));
    let goal = flip_if(p.show_goal_settings, chord_of(key, Key::K, ctrl, shift, None));
    let show_goal_settings = unless_escape_of(goal, key);
    let show_stats_panel = flip_if(p.show_stats_panel, chord_of(key, Key::I, ctrl, shift, None));
    let show_outline = flip_if(p.show_outline, chord_of(key, Key::U, ctrl, shift, None));
    let show_word_freq = flip_if(p.show_word_freq, chord_of(key, Key::M, ctrl, shift, None));
    let smart_typography = flip_if(p.smart_typography, chord_of(key, Key::T, ctrl, shift, None));
    let ai_show = flip_if(p.ai_show, chord_of(key, Key::A, ctrl, shift, Some(true)));
    let show_goto_line = flip_if(p.show_goto_line, chord_of(key, Key::P, ctrl, shift, Some(false)));
    let show_preview = flip_if(p.show_preview, chord_of(key, Key::P, ctrl, shift, Some(true)));
    let syntax_highlight = flip_if(p.syntax_highlight, chord_of(key, Key::G, ctrl, shift, Some(true)));
    let show_history = flip_if(p.show_history, chord_of(key, Key::B, ctrl, shift, Some(true)));
    Panels {
        show_find,
        show_replace,
        show_status,
        theme,
        focus_mode,
        typewriter,
        fullscreen,
        show_recent,
        zen_mode,
        show_line_numbers,
        show_goal_settings,
        show_stats_panel,
        show_outline,
        show_word_freq,
        smart_typography,
        ai_show,
        show_goto_line,
        show_preview,
        syntax_highlight,
        show_history,
    }
}

/// What the caller does after a key press.
pub fn action_for(p: Panels, key: Key, ctrl: bool, shift: bool, no_models: bool) -> (r: KeyAction)
    ensures
        r == key_action(p, key, ctrl, shift, no_models),
{
    match key {
        Key::N => if ctrl && !shift { KeyAction::NewWindow } else { KeyAction::Nothing },
        Key::O => if ctrl { KeyAction::OpenFile } else { KeyAction::Nothing },
        Key::S => if ctrl && shift {
            KeyAction::SaveAs
        } else if ctrl {
            KeyAction::Save
        } else {
            KeyAction::Nothing
        },
        Key::E => if ctrl { KeyAction::ExportHtml } else { KeyAction::Nothing },
        Key::Equals => if ctrl { KeyAction::FontLarger } else { KeyAction::Nothing },
        Key::Minus => if ctrl { KeyAction::FontSmaller } else { KeyAction::Nothing },
        Key::L => if ctrl && !shift { KeyAction::CycleLineSpacing } else { KeyAction::Nothing },
        Key::A => if ctrl && shift && !p.ai_show && no_models {
            KeyAction::FetchModels
        } else {
            KeyAction::Nothing
        },
        Key::Enter => if ctrl && shift && !p.zen_mode && !p.fullscreen {
            KeyAction::SetFullscreen(true)
        } else {
            KeyAction::Nothing
        },
        Key::F11 => KeyAction::SetFullscreen(!p.fullscreen),
        Key::Escape => if p.fullscreen { KeyAction::SetFullscreen(false) } else { KeyAction::Nothing },
        _ => KeyAction::Nothing,
    }
}

/// What a key press does to the tabs.
pub fn tab_change_for(key: Key, ctrl: bool, shift: bool) -> (r: TabChange)
    ensures
        r == tab_change(key, ctrl, shift),
{
    match key {
        Key::N => if ctrl && shift { TabChange::Open } else { TabChange::Keep },
        Key::W => if ctrl { TabChange::Close } else { TabChange::Keep },
        Key::Tab => if ctrl && shift {
            TabChange::Previous
        } else if ctrl {
            TabChange::Next
        } else {
            TabChange::Keep
        },
        _ => TabChange::Keep,
    }
}

/// The tabs, the active tab and the cursor after a change of tabs.
fn change_tabs(tabs: Vec<Tab>, active: usize, cursor: usize, c: TabChange) -> (r: (Vec<Tab>, usize, usize))
    requires
        active < tabs@.len(),
    ensures
        r.1 < r.0@.len(),
        match c {
            TabChange::Keep => r.0@ == tabs@ && r.1 == active && r.2 == cursor,
            TabChange::Open => {
                &&& r.0@.len() == tabs@.len() + 1
                &&& r.0@.take(tabs@.len() as int) == tabs@
                &&& untouched(r.0@.last())
                &&& r.1 == tabs@.len()
                &&& r.2 == 0
            },
            TabChange::Close => {
                &&& r.0@ == closed_tabs(tabs@, active as int)
                &&& r.1 == closed_active(tabs@.len() as int, active as int)
                &&& r.2 == if tabs@.len() > 1 { 0 } else { cursor }
            },
            TabChange::Next => {
                &&& r.0@ == tabs@
                &&& r.1 == next_tab(active as int, tabs@.len() as int)
                &&& r.2 == if tabs@.len() > 1 { 0 } else { cursor }
            },
            TabChange::Previous => {
                &&& r.0@ == tabs@
                &&& r.1 == previous_tab(active as int, tabs@.len() as int)
                &&& r.2 == if tabs@.len() > 1 { 0 } else { cursor }
            },
        },
{
    let n = tabs.len();
    let ghost old_tabs = tabs@;
    match c {
        TabChange::Keep => (tabs, active, cursor),
        TabChange::Open => {
            let mut tabs = tabs;
            tabs.push(Tab::new());
            proof {
                assert(tabs@.take(n as int) =~= old_tabs);
            }
            (tabs, n, 0)
        },
        TabChange::Close => {
            let (tabs, a, closed) = close_in(tabs, active);
            (tabs, a, if closed { 0 } else { cursor })
        },
        TabChange::Next => {
            if n > 1 {
                (tabs, (active + 1) % n, 0)
            } else {
                (tabs, active, cursor)
            }
        },
        TabChange::Previous => {
            if n > 1 {
                (tabs, if active == 0 { n - 1 } else { active - 1 }, 0)
            } else {
                (tabs, active, cursor)
            }
        },
    }
}

/// The tabs, the active tab and the cursor of `new`, from those of `old`
/// after `change`.
pub open spec fn tabs_after(old: Writer, new: Writer, change: TabChange) -> bool {
    match change {
        TabChange::Keep => {
            &&& new.tabs@ == old.tabs@
            &&& new.active == old.active
            &&& new.cursor_byte_pos == old.cursor_byte_pos
        },
        TabChange::Open => {
            &&& new.tabs@.len() == old.tabs@.len() + 1
            &&& new.tabs@.take(old.tabs@.len() as int) == old.tabs@
            &&& untouched(new.tabs@.last())
            &&& new.active == old.tabs@.len()
            &&& new.cursor_byte_pos == 0
        },
        TabChange::Close => {
            &&& new.tabs@ == closed_tabs(old.tabs@, old.active as int)
            &&& new.active == closed_active(old.tabs@.len() as int,
                old.active as int)
            &&& new.cursor_byte_pos == if old.tabs@.len() > 1 {
                0
            } else {
                old.cursor_byte_pos
            }
        },
        TabChange::Next => {
            &&& new.tabs@ == old.tabs@
            &&& new.active == next_tab(old.active as int,
                old.tabs@.len() as int)
            &&& new.cursor_byte_pos == if old.tabs@.len() > 1 {
                0
            } else {
                old.cursor_byte_pos
            }
        },
        TabChange::Previous => {
            &&& new.tabs@ == old.tabs@
            &&& new.active == previous_tab(old.active as int,
                old.tabs@.len() as int)
            &&& new.cursor_byte_pos == if old.tabs@.len() > 1 {
                0
            } else {
                old.cursor_byte_pos
            }
        },
    }
}

/// What a key press does to the editor: the switches become
/// `panels_after`, the caller is asked for `key_action`, the tabs change as
/// `tab_change` says, and nothing else changes.
#[verifier::opaque]
pub open spec fn key_step(old: Writer, new: Writer, key: Key, ctrl: bool, shift: bool, action: KeyAction) -> bool {
    &&& new.panels() == panels_after(old.panels(), key, ctrl, shift)
    &&& action == key_action(old.panels(), key, ctrl, shift, old.ai_available_models@.len() == 0)
    &&& tabs_after(old, new, tab_change(key, ctrl, shift))
    &&& new.same_rest(&old)
}

/// After a key press the switches are those `panels_after` gives.
pub proof fn lemma_key_panels(old: Writer, new: Writer, key: Key, ctrl: bool, shift: bool, action: KeyAction)
    requires
        key_step(old, new, key, ctrl, shift, action),
    ensures
        new.panels() == panels_after(old.panels(), key, ctrl, shift),
{
    reveal(key_step);
}

/// A key press asks the caller for what `key_action` gives.
pub proof fn lemma_key_action(old: Writer, new: Writer, key: Key, ctrl: bool, shift: bool, action: KeyAction)
    requires
        key_step(old, new, key, ctrl, shift, action),
    ensures
        action == key_action(old.panels(), key, ctrl, shift, old.ai_available_models@.len() == 0),
{
    reveal(key_step);
}

/// A key press changes the tabs as `tab_change` says, and leaves the
/// texts, the search and everything else apart from the switches.
pub proof fn lemma_key_tabs(old: Writer, new: Writer, key: Key, ctrl: bool, shift: bool, action: KeyAction)
    requires
        key_step(old, new, key, ctrl, shift, action),
    ensures
        tabs_after(old, new, tab_change(key, ctrl, shift)),
        new.same_rest(&old),
{
    reveal(key_step);
}

/// Escape closes the find and replace bars, the recent files and the goal
/// window, leaves zen mode and fullscreen, keeps the tabs, and asks the
/// caller to leave fullscreen when the window was fullscreen.
pub proof fn lemma_escape(old: Writer, new: Writer, ctrl: bool, shift: bool, action: KeyAction)
    requires
        key_step(old, new, Key::Escape, ctrl, shift, action),
    ensures
        !new.show_find && !new.show_replace && !new.show_recent && !new.show_goal_settings,
        !new.zen_mode && !new.fullscreen,
        new.tabs@ == old.tabs@ && new.active == old.active,
        action == if old.fullscreen { KeyAction::SetFullscreen(false) } else { KeyAction::Nothing },
{
    reveal(key_step);
    assert(new.panels().show_find == new.show_find);
}

impl Writer {
    /// The panel switches and display settings.
    pub open spec fn panels(&self) -> Panels {
        Panels {
            show_find: self.show_find,
            show_replace: self.show_replace,
            show_status: self.show_status,
            theme: self.theme,
            focus_mode: self.focus_mode,
            typewriter: self.typewriter,
            fullscreen: self.fullscreen,
            show_recent: self.show_recent,
            zen_mode: self.zen_mode,
            show_line_numbers: self.show_line_numbers,
            show_goal_settings: self.show_goal_settings,
            show_stats_panel: self.show_stats_panel,
            show_outline: self.show_outline,
            show_word_freq: self.show_word_freq,
            smart_typography: self.smart_typography,
            ai_show: self.ai_show,
            show_goto_line: self.show_goto_line,
            show_preview: self.show_preview,
            syntax_highlight: self.syntax_highlight,
            show_history: self.show_history,
        }
    }

    /// Everything but the switches, the tabs, the active tab and the cursor
    /// is the same.
    pub open spec fn same_rest(&self, other: &Writer) -> bool {
        &&& self.find_text == other.find_text
        &&& self.replace_text == other.replace_text
        &&& self.find_count == other.find_count
        &&& self.font_choice == other.font_choice
        &&& self.applied_font == other.applied_font
        &&& self.show_about == other.show_about
        &&& self.applied_titlebar == other.applied_titlebar
        &&& self.same_data(other)
        &&& self.same_ai(other)
    }

    /// The current switches.
    fn current_panels(&self) -> (p: Panels)
        ensures
            p == self.panels(),
    {
        Panels {
            show_find: self.show_find,
            show_replace: self.show_replace,
            show_status: self.show_status,
            theme: self.theme,
            focus_mode: self.focus_mode,
            typewriter: self.typewriter,
            fullscreen: self.fullscreen,
            show_recent: self.show_recent,
            zen_mode: self.zen_mode,
            show_line_numbers: self.show_line_numbers,
            show_goal_settings: self.show_goal_settings,
            show_stats_panel: self.show_stats_panel,
            show_outline: self.show_outline,
            show_word_freq: self.show_word_freq,
            smart_typography: self.smart_typography,
            ai_show: self.ai_show,
            show_goto_line: self.show_goto_line,
            show_preview: self.show_preview,
            syntax_highlight: self.syntax_highlight,
            show_history: self.show_history,
        }
    }

    /// Sets the switches.
    #[verifier::spinoff_prover]
    #[verifier::rlimit(100)]
    fn set_panels(&mut self, p: Panels)
        ensures
            final(self).panels() == p,
            final(self).tabs == old(self).tabs,
            final(self).active == old(self).active,
            final(self).cursor_byte_pos == old(self).cursor_byte_pos,
            final(self).same_rest(old(self)),
    {
        self.show_find = p.show_find;
        self.show_replace = p.show_replace;
        self.show_status = p.show_status;
        self.theme = p.theme;
        self.focus_mode = p.focus_mode;
        self.typewriter = p.typewriter;
        self.fullscreen = p.fullscreen;
        self.show_recent = p.show_recent;
        self.zen_mode = p.zen_mode;
        self.show_line_numbers = p.show_line_numbers;
        self.show_goal_settings = p.show_goal_settings;
        self.show_stats_panel = p.show_stats_panel;
        self.show_outline = p.show_outline;
        self.show_word_freq = p.show_word_freq;
        self.smart_typography = p.smart_typography;
        self.ai_show = p.ai_show;
        self.show_goto_line = p.show_goto_line;
        self.show_preview = p.show_preview;
        self.syntax_highlight = p.syntax_highlight;
        self.show_history = p.show_history;
    }

    /// Reacts to a key press, with Ctrl and Shift as given, and tells the
    /// caller what else to do: `key_step` says what, and its lemmas give it
    /// piece by piece.
    #[verifier::spinoff_prover]
    pub fn handle_key(&mut self, key: Key, ctrl: bool, shift: bool) -> (action: KeyAction)
        requires
            old(self).wf(),
        ensures
            final(self).wf(),
            key_step(*old(self), *final(self), key, ctrl, shift, action),
    {
        let p = self.current_panels();
        let no_models = self.ai_available_models.len() == 0;
        let action = action_for(p, key, ctrl, shift, no_models);
        let np = next_panels(p, key, ctrl, shift);
        let change = tab_change_for(key, ctrl, shift);
        let active = self.active;
        let cursor = self.cursor_byte_pos;
        let tabs = self.take_tabs();
        let (tabs, active, cursor) = change_tabs(tabs, active, cursor, change);
        self.tabs = tabs;
        self.active = active;
        self.cursor_byte_pos = cursor;
        self.set_panels(np);
        proof {
            reveal(key_step);
        }
        action
    }
}

} // verus!
