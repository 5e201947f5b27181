//! Editor settings: fonts, color themes, focus modes and AI actions.
use vstd::prelude::*;
use crate::text::{push_char, push_str};

verus! {

// ── Font choice ───────────────────────────────────────────────────────

/// A font the editor can draw text with.
#[derive(Clone, Copy, Debug, PartialEq, Eq, Structural)]
pub enum FontChoice {
    MalgunGothic,
    SegoeUI,
    Consolas,
    Arial,
    TimesNewRoman,
    Calibri,
    Verdana,
}

/// Display name of a font.
pub open spec fn font_name(c: FontChoice) -> Seq<char> {
    match c {
        FontChoice::MalgunGothic => "Malgun Gothic"@,
        FontChoice::SegoeUI => "Segoe UI"@,
        FontChoice::Consolas => "Consolas"@,
        FontChoice::Arial => "Arial"@,
        FontChoice::TimesNewRoman => "Times New Roman"@,
        FontChoice::Calibri => "Calibri"@,
        FontChoice::Verdana => "Verdana"@,
    }
}

/// File name of a font.
pub open spec fn font_file(c: FontChoice) -> Seq<char> {
    match c {
        FontChoice::MalgunGothic => "malgun.ttf"@,
        FontChoice::SegoeUI => "segoeui.ttf"@,
        FontChoice::Consolas => "consola.ttf"@,
        FontChoice::Arial => "arial.ttf"@,
        FontChoice::TimesNewRoman => "times.ttf"@,
        FontChoice::Calibri => "calibri.ttf"@,
        FontChoice::Verdana => "verdana.ttf"@,
    }
}

impl FontChoice {
    /// Every font, in menu order.
    pub const ALL: &'static [FontChoice; 7] = &[
        FontChoice::MalgunGothic,
        FontChoice::SegoeUI,
        FontChoice::Consolas,
        FontChoice::Arial,
        FontChoice::TimesNewRoman,
        FontChoice::Calibri,
        FontChoice::Verdana,
    ];

    /// Display name of the font.
    pub fn name(self) -> (r: &'static str)
        ensures
            r@ == font_name(self),
    {
        match self {
            FontChoice::MalgunGothic => "Malgun Gothic",
            FontChoice::SegoeUI => "Segoe UI",
            FontChoice::Consolas => "Consolas",
            FontChoice::Arial => "Arial",
            FontChoice::TimesNewRoman => "Times New Roman",
            FontChoice::Calibri => "Calibri",
            FontChoice::Verdana => "Verdana",
        }
    }

    /// File name of the font in the system font directory.
    pub fn file(self) -> (r: &'static str)
        ensures
            r@ == font_file(self),
    {
        match self {
            FontChoice::MalgunGothic => "malgun.ttf",
            FontChoice::SegoeUI => "segoeui.ttf",
            FontChoice::Consolas => "consola.ttf",
            FontChoice::Arial => "arial.ttf",
            FontChoice::TimesNewRoman => "times.ttf",
            FontChoice::Calibri => "calibri.ttf",
            FontChoice::Verdana => "verdana.ttf",
        }
    }
}

/// Directory that holds the system fonts.
pub open spec fn font_dir() -> Seq<char> {
    "C:\\Windows\\Fonts\\"@
}

/// Full path of a font file in the system font directory.
pub fn font_path(choice: FontChoice) -> (r: String)
    ensures
        r@ == font_dir() + font_file(choice),
{
    let mut r = String::new();
    push_str(&mut r, "C:\\Windows\\Fonts\\");
    push_str(&mut r, choice.file());
    r
}

/// Position of the Korean fallback font in the font families: first when it
/// is the chosen font, right after the chosen font otherwise.
pub fn fallback_font_index(choice: FontChoice) -> (r: usize)
    ensures
        r == if choice == FontChoice::MalgunGothic { 0usize } else { 1usize },
{
    if choice == FontChoice::MalgunGothic { 0 } else { 1 }
}

// ── Colors ────────────────────────────────────────────────────────────

/// A color as red, green, blue and (premultiplied) alpha bytes.
#[derive(Clone, Copy, Debug, PartialEq, Eq, Structural)]
pub struct Rgba {
    pub r: u8,
    pub g: u8,
    pub b: u8,
    pub a: u8,
}

impl Rgba {
    /// An opaque color.
    pub open spec fn spec_rgb(r: u8, g: u8, b: u8) -> Rgba {
        Rgba { r, g, b, a: 255 }
    }

    /// An opaque color.
    pub fn rgb(r: u8, g: u8, b: u8) -> (c: Rgba)
        ensures
            c == Rgba::spec_rgb(r, g, b),
    {
        Rgba { r, g, b, a: 255 }
    }
}

/// The lowercase hexadecimal digit for `v < 16`.
pub open spec fn hex_digit(v: u8) -> char {
    if v < 10 {
        (('0' as u8) + v) as char
    } else {
        (('a' as u8) + (v - 10)) as char
    }
}

fn hex_digit_exec(v: u8) -> (c: char)
    requires
        v < 16,
    ensures
        c == hex_digit(v),
{
    if v < 10 {
        ((48u8 + v) as char)
    } else {
        ((97u8 + (v - 10)) as char)
    }
}

/// Two lowercase hexadecimal digits of a byte.
pub open spec fn hex_byte(v: u8) -> Seq<char> {
    seq![hex_digit(v / 16), hex_digit(v % 16)]
}

/// `#rrggbb`, lowercase, as CSS writes an opaque color.
pub open spec fn spec_color_hex(c: Rgba) -> Seq<char> {
    seq!['#'] + hex_byte(c.r) + hex_byte(c.g) + hex_byte(c.b)
}

/// The color as `#rrggbb`, in lowercase hexadecimal; alpha is left out.
pub fn color_hex(c: Rgba) -> (s: String)
    ensures
        s@ == spec_color_hex(c),
{
    let mut s = String::new();
    push_char(&mut s, '#');
    push_char(&mut s, hex_digit_exec(c.r / 16));
    push_char(&mut s, hex_digit_exec(c.r % 16));
    push_char(&mut s, hex_digit_exec(c.g / 16));
    push_char(&mut s, hex_digit_exec(c.g % 16));
    push_char(&mut s, hex_digit_exec(c.b / 16));
    push_char(&mut s, hex_digit_exec(c.b % 16));
    proof {
        assert(s@ =~= spec_color_hex(c));
    }
    s
}

/// The Windows `COLORREF` of a color: red in the low byte, then green, then blue.
pub fn colorref(c: Rgba) -> (v: u32)
    ensures
        v == c.r as u32 + 256 * (c.g as u32) + 65536 * (c.b as u32),
{
    let r = c.r as u32;
    let g = c.g as u32;
    let b = c.b as u32;
    r + 256 * g + 65536 * b
}

// ── Theme ─────────────────────────────────────────────────────────────

/// A color theme.
#[derive(Clone, Copy, Debug, PartialEq, Eq, Structural)]
pub enum Theme {
    Cream,
    Dark,
    Forest,
    Ocean,
    Sepia,
    Midnight,
    Solarized,
    Nord,
    Lavender,
}

/// The theme that follows `t` in the cycle.
pub open spec fn theme_after(t: Theme) -> Theme {
    match t {
        Theme::Cream => Theme::Dark,
        Theme::Dark => Theme::Forest,
        Theme::Forest => Theme::Ocean,
        Theme::Ocean => Theme::Sepia,
        Theme::Sepia => Theme::Midnight,
        Theme::Midnight => Theme::Solarized,
        Theme::Solarized => Theme::Nord,
        Theme::Nord => Theme::Lavender,
        Theme::Lavender => Theme::Cream,
    }
}

/// `t` advanced `n` times.
pub open spec fn theme_advance(t: Theme, n: nat) -> Theme
    decreases n,
{
    if n == 0 {
        t
    } else {
        theme_advance(theme_after(t), (n - 1) as nat)
    }
}

/// The position of a theme in the cycle.
pub open spec fn theme_index(t: Theme) -> nat {
    match t {
        Theme::Cream => 0,
        Theme::Dark => 1,
        Theme::Forest => 2,
        Theme::Ocean => 3,
        Theme::Sepia => 4,
        Theme::Midnight => 5,
        Theme::Solarized => 6,
        Theme::Nord => 7,
        Theme::Lavender => 8,
    }
}

/// The display name of a theme.
pub open spec fn theme_name(t: Theme) -> Seq<char> {
    match t {
        Theme::Cream => "Cream"@,
        Theme::Dark => "Dark"@,
        Theme::Forest => "Forest"@,
        Theme::Ocean => "Ocean"@,
        Theme::Sepia => "Sepia"@,
        Theme::Midnight => "Midnight"@,
        Theme::Solarized => "Solarized"@,
        Theme::Nord => "Nord"@,
        Theme::Lavender => "Lavender"@,
    }
}

/// Background color of a theme.
pub open spec fn theme_bg(t: Theme) -> Rgba {
    match t {
        Theme::Cream => Rgba::spec_rgb(252, 250, 245),
        Theme::Dark => Rgba::spec_rgb(26, 26, 46),
        Theme::Forest => Rgba::spec_rgb(27, 43, 27),
        Theme::Ocean => Rgba::spec_rgb(26, 36, 51),
        Theme::Sepia => Rgba::spec_rgb(242, 229, 209),
        Theme::Midnight => Rgba::spec_rgb(15, 15, 20),
        Theme::Solarized => Rgba::spec_rgb(253, 246, 227),
        Theme::Nord => Rgba::spec_rgb(46, 52, 64),
        Theme::Lavender => Rgba::spec_rgb(240, 235, 248),
    }
}

/// Text color of a theme.
pub open spec fn theme_fg(t: Theme) -> Rgba {
    match t {
        Theme::Cream => Rgba::spec_rgb(50, 50, 50),
        Theme::Dark => Rgba::spec_rgb(212, 212, 212),
        Theme::Forest => Rgba::spec_rgb(200, 216, 192),
        Theme::Ocean => Rgba::spec_rgb(189, 208, 232),
        Theme::Sepia => Rgba::spec_rgb(75, 55, 35),
        Theme::Midnight => Rgba::spec_rgb(180, 180, 195),
        Theme::Solarized => Rgba::spec_rgb(101, 123, 131),
        Theme::Nord => Rgba::spec_rgb(216, 222, 233),
        Theme::Lavender => Rgba::spec_rgb(60, 50, 80),
    }
}

/// Muted text color of a theme.
pub open spec fn theme_dim(t: Theme) -> Rgba {
    match t {
        Theme::Cream => Rgba::spec_rgb(160, 160, 160),
        Theme::Dark => Rgba::spec_rgb(100, 100, 120),
        Theme::Forest => Rgba::spec_rgb(90, 122, 80),
        Theme::Ocean => Rgba::spec_rgb(80, 104, 120),
        Theme::Sepia => Rgba::spec_rgb(160, 140, 115),
        Theme::Midnight => Rgba::spec_rgb(80, 80, 100),
        Theme::Solarized => Rgba::spec_rgb(147, 161, 161),
        Theme::Nord => Rgba::spec_rgb(120, 130, 148),
        Theme::Lavender => Rgba::spec_rgb(140, 130, 160),
    }
}

/// Color of text outside the focused region.
pub open spec fn theme_focus_dim(t: Theme) -> Rgba {
    match t {
        Theme::Cream => Rgba::spec_rgb(208, 207, 200),
        Theme::Dark => Rgba::spec_rgb(58, 58, 80),
        Theme::Forest => Rgba::spec_rgb(47, 74, 47),
        Theme::Ocean => Rgba::spec_rgb(42, 58, 80),
        Theme::Sepia => Rgba::spec_rgb(210, 200, 180),
        Theme::Midnight => Rgba::spec_rgb(35, 35, 50),
        Theme::Solarized => Rgba::spec_rgb(220, 215, 200),
        Theme::Nord => Rgba::spec_rgb(68, 76, 92),
        Theme::Lavender => Rgba::spec_rgb(210, 205, 225),
    }
}

/// Background of hovered widgets.
pub open spec fn theme_hover(t: Theme) -> Rgba {
    match t {
        Theme::Cream => Rgba::spec_rgb(238, 235, 226),
        Theme::Dark => Rgba::spec_rgb(40, 40, 68),
        Theme::Forest => Rgba::spec_rgb(38, 60, 38),
        Theme::Ocean => Rgba::spec_rgb(36, 52, 72),
        Theme::Sepia => Rgba::spec_rgb(230, 218, 198),
        Theme::Midnight => Rgba::spec_rgb(25, 25, 38),
        Theme::Solarized => Rgba::spec_rgb(238, 232, 213),
        Theme::Nord => Rgba::spec_rgb(59, 66, 82),
        Theme::Lavender => Rgba::spec_rgb(225, 218, 238),
    }
}

/// Translucent selection color (premultiplied alpha).
pub open spec fn theme_selection(t: Theme) -> Rgba {
    match t {
        Theme::Cream => Rgba { r: 180, g: 210, b: 240, a: 100 },
        Theme::Dark => Rgba { r: 80, g: 80, b: 140, a: 100 },
        Theme::Forest => Rgba { r: 80, g: 140, b: 80, a: 100 },
        Theme::Ocean => Rgba { r: 80, g: 120, b: 180, a: 100 },
        Theme::Sepia => Rgba { r: 190, g: 160, b: 110, a: 100 },
        Theme::Midnight => Rgba { r: 60, g: 60, b: 120, a: 100 },
        Theme::Solarized => Rgba { r: 38, g: 139, b: 210, a: 80 },
        Theme::Nord => Rgba { r: 94, g: 129, b: 172, a: 100 },
        Theme::Lavender => Rgba { r: 140, g: 110, b: 200, a: 90 },
    }
}

/// Accent color of a theme (headings, links, markers).
pub open spec fn theme_accent(t: Theme) -> Rgba {
    match t {
        Theme::Cream => Rgba::spec_rgb(70, 130, 180),
        Theme::Dark => Rgba::spec_rgb(130, 130, 200),
        Theme::Forest => Rgba::spec_rgb(120, 180, 100),
        Theme::Ocean => Rgba::spec_rgb(100, 160, 220),
        Theme::Sepia => Rgba::spec_rgb(180, 120, 60),
        Theme::Midnight => Rgba::spec_rgb(100, 100, 180),
        Theme::Solarized => Rgba::spec_rgb(38, 139, 210),
        Theme::Nord => Rgba::spec_rgb(136, 192, 208),
        Theme::Lavender => Rgba::spec_rgb(120, 80, 180),
    }
}

impl Theme {
    /// Every theme, in cycle order.
    pub const ALL: &'static [Theme; 9] = &[
        Theme::Cream,
        Theme::Dark,
        Theme::Forest,
        Theme::Ocean,
        Theme::Sepia,
        Theme::Midnight,
        Theme::Solarized,
        Theme::Nord,
        Theme::Lavender,
    ];

    /// The next theme in the cycle.
    pub fn next(self) -> (r: Theme)
        ensures
            r == theme_after(self),
    {
        match self {
            Theme::Cream => Theme::Dark,
            Theme::Dark => Theme::Forest,
            Theme::Forest => Theme::Ocean,
            Theme::Ocean => Theme::Sepia,
            Theme::Sepia => Theme::Midnight,
            Theme::Midnight => Theme::Solarized,
            Theme::Solarized => Theme::Nord,
            Theme::Nord => Theme::Lavender,
            Theme::Lavender => Theme::Cream,
        }
    }

    /// Display name of the theme.
    pub fn name(self) -> (r: &'static str)
        ensures
            r@ == theme_name(self),
    {
        match self {
            Theme::Cream => "Cream",
            Theme::Dark => "Dark",
            Theme::Forest => "Forest",
            Theme::Ocean => "Ocean",
            Theme::Sepia => "Sepia",
            Theme::Midnight => "Midnight",
            Theme::Solarized => "Solarized",
            Theme::Nord => "Nord",
            Theme::Lavender => "Lavender",
        }
    }

    /// Background color.
    pub fn bg(self) -> (c: Rgba)
        ensures
            c == theme_bg(self),
    {
        match self {
            Theme::Cream => Rgba::rgb(252, 250, 245),
            Theme::Dark => Rgba::rgb(26, 26, 46),
            Theme::Forest => Rgba::rgb(27, 43, 27),
            Theme::Ocean => Rgba::rgb(26, 36, 51),
            Theme::Sepia => Rgba::rgb(242, 229, 209),
            Theme::Midnight => Rgba::rgb(15, 15, 20),
            Theme::Solarized => Rgba::rgb(253, 246, 227),
            Theme::Nord => Rgba::rgb(46, 52, 64),
            Theme::Lavender => Rgba::rgb(240, 235, 248),
        }
    }

    /// Text color.
    pub fn fg(self) -> (c: Rgba)
        ensures
            c == theme_fg(self),
    {
        match self {
            Theme::Cream => Rgba::rgb(50, 50, 50),
            Theme::Dark => Rgba::rgb(212, 212, 212),
            Theme::Forest => Rgba::rgb(200, 216, 192),
            Theme::Ocean => Rgba::rgb(189, 208, 232),
            Theme::Sepia => Rgba::rgb(75, 55, 35),
            Theme::Midnight => Rgba::rgb(180, 180, 195),
            Theme::Solarized => Rgba::rgb(101, 123, 131),
            Theme::Nord => Rgba::rgb(216, 222, 233),
            Theme::Lavender => Rgba::rgb(60, 50, 80),
        }
    }

    /// Muted text color.
    pub fn dim(self) -> (c: Rgba)
        ensures
            c == theme_dim(self),
    {
        match self {
            Theme::Cream => Rgba::rgb(160, 160, 160),
            Theme::Dark => Rgba::rgb(100, 100, 120),
            Theme::Forest => Rgba::rgb(90, 122, 80),
            Theme::Ocean => Rgba::rgb(80, 104, 120),
            Theme::Sepia => Rgba::rgb(160, 140, 115),
            Theme::Midnight => Rgba::rgb(80, 80, 100),
            Theme::Solarized => Rgba::rgb(147, 161, 161),
            Theme::Nord => Rgba::rgb(120, 130, 148),
            Theme::Lavender => Rgba::rgb(140, 130, 160),
        }
    }

    /// Color of text outside the focused region.
    pub fn focus_dim(self) -> (c: Rgba)
        ensures
            c == theme_focus_dim(self),
    {
        match self {
            Theme::Cream => Rgba::rgb(208, 207, 200),
            Theme::Dark => Rgba::rgb(58, 58, 80),
            Theme::Forest => Rgba::rgb(47, 74, 47),
            Theme::Ocean => Rgba::rgb(42, 58, 80),
            Theme::Sepia => Rgba::rgb(210, 200, 180),
            Theme::Midnight => Rgba::rgb(35, 35, 50),
            Theme::Solarized => Rgba::rgb(220, 215, 200),
            Theme::Nord => Rgba::rgb(68, 76, 92),
            Theme::Lavender => Rgba::rgb(210, 205, 225),
        }
    }

    /// Background of hovered widgets.
    pub fn hover(self) -> (c: Rgba)
        ensures
            c == theme_hover(self),
    {
        match self {
            Theme::Cream => Rgba::rgb(238, 235, 226),
            Theme::Dark => Rgba::rgb(40, 40, 68),
            Theme::Forest => Rgba::rgb(38, 60, 38),
            Theme::Ocean => Rgba::rgb(36, 52, 72),
            Theme::Sepia => Rgba::rgb(230, 218, 198),
            Theme::Midnight => Rgba::rgb(25, 25, 38),
            Theme::Solarized => Rgba::rgb(238, 232, 213),
            Theme::Nord => Rgba::rgb(59, 66, 82),
            Theme::Lavender => Rgba::rgb(225, 218, 238),
        }
    }

    /// Translucent selection color.
    pub fn selection(self) -> (c: Rgba)
        ensures
            c == theme_selection(self),
    {
        match self {
            Theme::Cream => Rgba { r: 180, g: 210, b: 240, a: 100 },
            Theme::Dark => Rgba { r: 80, g: 80, b: 140, a: 100 },
            Theme::Forest => Rgba { r: 80, g: 140, b: 80, a: 100 },
            Theme::Ocean => Rgba { r: 80, g: 120, b: 180, a: 100 },
            Theme::Sepia => Rgba { r: 190, g: 160, b: 110, a: 100 },
            Theme::Midnight => Rgba { r: 60, g: 60, b: 120, a: 100 },
            Theme::Solarized => Rgba { r: 38, g: 139, b: 210, a: 80 },
            Theme::Nord => Rgba { r: 94, g: 129, b: 172, a: 100 },
            Theme::Lavender => Rgba { r: 140, g: 110, b: 200, a: 90 },
        }
    }

    /// Accent color.
    pub fn accent(self) -> (c: Rgba)
        ensures
            c == theme_accent(self),
    {
        match self {
            Theme::Cream => Rgba::rgb(70, 130, 180),
            Theme::Dark => Rgba::rgb(130, 130, 200),
            Theme::Forest => Rgba::rgb(120, 180, 100),
            Theme::Ocean => Rgba::rgb(100, 160, 220),
            Theme::Sepia => Rgba::rgb(180, 120, 60),
            Theme::Midnight => Rgba::rgb(100, 100, 180),
            Theme::Solarized => Rgba::rgb(38, 139, 210),
            Theme::Nord => Rgba::rgb(136, 192, 208),
            Theme::Lavender => Rgba::rgb(120, 80, 180),
        }
    }

    /// Whether the theme has a dark background.
    pub fn is_dark(self) -> (r: bool)
        ensures
            r == (self == Theme::Dark || self == Theme::Forest || self == Theme::Ocean || self
                == Theme::Midnight || self == Theme::Nord),
    {
        match self {
            Theme::Dark | Theme::Forest | Theme::Ocean | Theme::Midnight | Theme::Nord => true,
            _ => false,
        }
    }
}

/// Cycling through the themes nine times comes back to the starting theme,
/// and no shorter positive number of steps does.
pub proof fn lemma_theme_cycle(t: Theme)
    ensures
        theme_advance(t, 9) == t,
        forall|n: nat| 0 < n < 9 ==> #[trigger] theme_advance(t, n) != t,
{
    lemma_theme_advance_index(t, 9);
    assert forall|n: nat| 0 < n < 9 implies #[trigger] theme_advance(t, n) != t by {
        lemma_theme_advance_index(t, n);
    }
}

/// Advancing `n` steps moves the theme `n` places around the cycle.
pub proof fn lemma_theme_advance_index(t: Theme, n: nat)
    ensures
        theme_index(theme_advance(t, n)) == (theme_index(t) + n) % 9,
    decreases n,
{
    if n > 0 {
        lemma_theme_advance_index(theme_after(t), (n - 1) as nat);
    }
}

/// Dark themes have a darker background than text: each background channel
/// is below the matching text channel, and the reverse for light themes.
pub proof fn lemma_theme_contrast(t: Theme)
    ensures
        theme_bg(t) != theme_fg(t),
        theme_dim(t) != theme_fg(t),
        (t == Theme::Dark || t == Theme::Forest || t == Theme::Ocean || t == Theme::Midnight
            || t == Theme::Nord) ==> theme_bg(t).r < theme_fg(t).r && theme_bg(t).g < theme_fg(
            t,
        ).g && theme_bg(t).b < theme_fg(t).b,
        !(t == Theme::Dark || t == Theme::Forest || t == Theme::Ocean || t == Theme::Midnight
            || t == Theme::Nord) ==> theme_bg(t).r > theme_fg(t).r && theme_bg(t).g > theme_fg(
            t,
        ).g && theme_bg(t).b > theme_fg(t).b,
{
}

/// The sum of a color's red, green and blue channels.
pub open spec fn brightness(c: Rgba) -> int {
    c.r + c.g + c.b
}

/// How far apart two colors are: the channel differences added up.
pub open spec fn color_distance(a: Rgba, b: Rgba) -> int {
    let dr = a.r - b.r;
    let dg = a.g - b.g;
    let db = a.b - b.b;
    (if dr < 0 { -dr } else { dr }) + (if dg < 0 { -dg } else { dg }) + (if db < 0 { -db } else { db })
}

/// Every theme is readable: its text is more than 100 away from its
/// background, and its muted text lies between the two in brightness.
pub proof fn lemma_theme_readable(t: Theme)
    ensures
        color_distance(theme_bg(t), theme_fg(t)) > 100,
        brightness(theme_bg(t)) <= brightness(theme_dim(t)) <= brightness(theme_fg(t))
            || brightness(theme_fg(t)) <= brightness(theme_dim(t)) <= brightness(theme_bg(t)),
{
}

/// Different themes have different names and different backgrounds.
pub proof fn lemma_themes_distinct(t: Theme, u: Theme)
    requires
        t != u,
    ensures
        theme_name(t) != theme_name(u),
        theme_bg(t) != theme_bg(u),
{
    reveal_strlit("Cream");
    reveal_strlit("Dark");
    reveal_strlit("Forest");
    reveal_strlit("Ocean");
    reveal_strlit("Sepia");
    reveal_strlit("Midnight");
    reveal_strlit("Solarized");
    reveal_strlit("Nord");
    reveal_strlit("Lavender");
    assert(theme_name(t).len() != theme_name(u).len() || theme_name(t)[0] != theme_name(u)[0]
        || theme_name(t)[1] != theme_name(u)[1]);
}

// ── Focus mode ────────────────────────────────────────────────────────

/// Which part of the text stays bright while writing.
#[derive(Clone, Copy, Debug, PartialEq, Eq, Structural)]
pub enum FocusMode {
    Off,
    Line,
    Paragraph,
}

/// The focus mode after `m`.
pub open spec fn focus_after(m: FocusMode) -> FocusMode {
    match m {
        FocusMode::Off => FocusMode::Line,
        FocusMode::Line => FocusMode::Paragraph,
        FocusMode::Paragraph => FocusMode::Off,
    }
}

impl FocusMode {
    /// The next focus mode: Off, Line, Paragraph, then Off again.
    pub fn next(self) -> (r: FocusMode)
        ensures
            r == focus_after(self),
    {
        match self {
            FocusMode::Off => FocusMode::Line,
            FocusMode::Line => FocusMode::Paragraph,
            FocusMode::Paragraph => FocusMode::Off,
        }
    }

    /// Label shown in menus and the status bar.
    pub fn label(self) -> (r: &'static str)
        ensures
            r@ == focus_label(self),
    {
        match self {
            FocusMode::Off => "Off",
            FocusMode::Line => "Line",
            FocusMode::Paragraph => "Paragraph",
        }
    }
}

/// Label of a focus mode.
pub open spec fn focus_label(m: FocusMode) -> Seq<char> {
    match m {
        FocusMode::Off => "Off"@,
        FocusMode::Line => "Line"@,
        FocusMode::Paragraph => "Paragraph"@,
    }
}

/// Three steps through the focus modes return to the start; fewer do not.
pub proof fn lemma_focus_cycle(m: FocusMode)
    ensures
        focus_after(focus_after(focus_after(m))) == m,
        focus_after(m) != m,
        focus_after(focus_after(m)) != m,
{
}

// ── AI actions ────────────────────────────────────────────────────────

/// What the AI assistant is asked to do with the text.
#[derive(Clone, Copy, Debug, PartialEq, Eq, Structural)]
pub enum AiAction {
    Proofread,
    Summarize,
    Expand,
    Rewrite,
    TranslateKo,
    TranslateEn,
    Continue,
    Custom,
}

/// The instruction given to the model for an action; `Custom` uses the
/// user's own instruction.
pub open spec fn instruction(a: AiAction, custom: Seq<char>) -> Seq<char> {
    match a {
        AiAction::Proofread => "Fix grammar, spelling, and punctuation errors in the following text. Return only the corrected text without any explanation."@,
        AiAction::Summarize => "Summarize the following text concisely. Keep the same language as the input."@,
        AiAction::Expand => "Expand and elaborate on the following text with more detail and depth. Keep the same style and language."@,
        AiAction::Rewrite => "Rewrite the following text with improved clarity and flow. Keep the same meaning and language."@,
        AiAction::TranslateKo => "Translate the following text to Korean. Return only the translation, no explanation."@,
        AiAction::TranslateEn => "Translate the following text to English. Return only the translation, no explanation."@,
        AiAction::Continue => "Continue writing the following text naturally. Match the style, tone, and language of the input. Write 2-3 paragraphs."@,
        AiAction::Custom => custom,
    }
}

/// The line that separates the instruction from the text in a prompt.
pub open spec fn prompt_separator() -> Seq<char> {
    "\n\n---\n\n"@
}

impl AiAction {
    /// Every action, in the order the assistant lists them.
    pub const ALL: &'static [AiAction; 8] = &[
        AiAction::Proofread,
        AiAction::Summarize,
        AiAction::Expand,
        AiAction::Rewrite,
        AiAction::TranslateKo,
        AiAction::TranslateEn,
        AiAction::Continue,
        AiAction::Custom,
    ];

    /// Display name of the action.
    pub fn name(self) -> (r: &'static str)
        ensures
            r@ == match self {
                AiAction::Proofread => "Proofread"@,
                AiAction::Summarize => "Summarize"@,
                AiAction::Expand => "Expand"@,
                AiAction::Rewrite => "Rewrite"@,
                AiAction::TranslateKo => "Translate \u{2192} Korean"@,
                AiAction::TranslateEn => "Translate \u{2192} English"@,
                AiAction::Continue => "Continue Writing"@,
                AiAction::Custom => "Custom Prompt"@,
            },
    {
        match self {
            AiAction::Proofread => "Proofread",
            AiAction::Summarize => "Summarize",
            AiAction::Expand => "Expand",
            AiAction::Rewrite => "Rewrite",
            AiAction::TranslateKo => "Translate \u{2192} Korean",
            AiAction::TranslateEn => "Translate \u{2192} English",
            AiAction::Continue => "Continue Writing",
            AiAction::Custom => "Custom Prompt",
        }
    }

    /// Short icon text of the action.
    pub fn icon(self) -> (r: &'static str)
        ensures
            r@ == match self {
                AiAction::Proofread => "ABC"@,
                AiAction::Summarize => "<<"@,
                AiAction::Expand => ">>"@,
                AiAction::Rewrite => "<>"@,
                AiAction::TranslateKo => "KO"@,
                AiAction::TranslateEn => "EN"@,
                AiAction::Continue => "..."@,
                AiAction::Custom => "?"@,
            },
    {
        match self {
            AiAction::Proofread => "ABC",
            AiAction::Summarize => "<<",
            AiAction::Expand => ">>",
            AiAction::Rewrite => "<>",
            AiAction::TranslateKo => "KO",
            AiAction::TranslateEn => "EN",
            AiAction::Continue => "...",
            AiAction::Custom => "?",
        }
    }

    /// The prompt for the model: the instruction, a separator line, then the text.
    pub fn build_prompt(self, text: &str, custom: &str) -> (r: String)
        ensures
            r@ == instruction(self, custom@) + prompt_separator() + text@,
    {
        let instruction: &str = match self {
            AiAction::Proofread => "Fix grammar, spelling, and punctuation errors in the following text. Return only the corrected text without any explanation.",
            AiAction::Summarize => "Summarize the following text concisely. Keep the same language as the input.",
            AiAction::Expand => "Expand and elaborate on the following text with more detail and depth. Keep the same style and language.",
            AiAction::Rewrite => "Rewrite the following text with improved clarity and flow. Keep the same meaning and language.",
            AiAction::TranslateKo => "Translate the following text to Korean. Return only the translation, no explanation.",
            AiAction::TranslateEn => "Translate the following text to English. Return only the translation, no explanation.",
            AiAction::Continue => "Continue writing the following text naturally. Match the style, tone, and language of the input. Write 2-3 paragraphs.",
            AiAction::Custom => custom,
        };
        let mut r = String::new();
        push_str(&mut r, instruction);
        push_str(&mut r, "\n\n---\n\n");
        push_str(&mut r, text);
        r
    }
}

} // verus!
