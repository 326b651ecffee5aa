//! The built-in colour themes.
//!
//! A theme is picked by name and gives a palette; what is drawn takes its
//! colours from the palette.

use vstd::prelude::*;
use crate::text::{lower, lower_chars, same, to_chars, trim, trim_end, trim_start, trimmed, from_chars, is_white, lower_char};

verus! {

/// One of the built-in themes.
#[derive(Debug, Clone, Copy, PartialEq, Eq, Structural)]
pub enum Theme {
    /// Colours that work on most terminals.
    Default,
    /// Cooler tones, for dark backgrounds.
    Dark,
    /// For light backgrounds.
    Light,
    /// As much contrast as there is.
    HighContrast,
    /// `Dark` or `Light`, as the terminal's background is.
    Auto,
}

/// The brightness of the terminal's background.
#[derive(Debug, Clone, Copy, PartialEq, Eq, Structural)]
pub enum TerminalKind {
    Dark,
    Light,
}

/// A colour of the terminal.
#[derive(Debug, Clone, Copy, PartialEq, Eq, Structural)]
pub enum Color {
    White,
    Gray,
    DarkGray,
    Red,
    LightRed,
    Green,
    Yellow,
    Blue,
    Magenta,
    Cyan,
    Rgb(u8, u8, u8),
}

/// The colours of a theme, by what they are used for.
#[derive(Debug, Clone, Copy, PartialEq, Eq, Structural)]
pub struct Palette {
    pub fg: Color,
    pub accent: Color,
    pub running: Color,
    pub done: Color,
    pub cached: Color,
    pub failed: Color,
    pub queued: Color,
    pub stderr: Color,
    pub stdout: Color,
    pub help: Color,
    pub eta: Color,
}

/// A name that no theme has.
#[derive(Debug, Clone, PartialEq, Eq)]
pub struct UnknownTheme {
    /// The name, in lower case and without white space around it.
    pub name: String,
}

impl UnknownTheme {
    /// What is said of the unknown name.
    pub open spec fn text(self) -> Seq<char> {
        "unknown theme '"@ + self.name@
            + "'; expected one of default, dark, light, high-contrast, auto"@
    }

    /// What is said of the unknown name.
    pub fn message(&self) -> (r: String)
        ensures
            r@ == self.text(),
    {
        let mut r = "unknown theme '".to_owned();
        r.append(self.name.as_str());
        r.append("'; expected one of default, dark, light, high-contrast, auto");
        r
    }
}

/// A name as it is looked up.
pub open spec fn lookup(name: Seq<char>) -> Seq<char> {
    lower(trim(name))
}

/// The theme of a name. Case and white space around the name do not matter, and
/// an empty name means the default.
pub open spec fn theme_of(name: Seq<char>) -> Option<Theme> {
    let key = lookup(name);
    if key == ""@ || key == "default"@ {
        Some(Theme::Default)
    } else if key == "dark"@ {
        Some(Theme::Dark)
    } else if key == "light"@ {
        Some(Theme::Light)
    } else if key == "high-contrast"@ || key == "highcontrast"@ || key == "hc"@ {
        Some(Theme::HighContrast)
    } else if key == "auto"@ {
        Some(Theme::Auto)
    } else {
        None
    }
}

impl Theme {
    /// The names of the themes, in the order in which they are shown.
    pub const NAMES: [&'static str; 5] = ["default", "dark", "light", "high-contrast", "auto"];

    /// The name of the theme.
    pub open spec fn label(self) -> Seq<char> {
        match self {
            Theme::Default => "default"@,
            Theme::Dark => "dark"@,
            Theme::Light => "light"@,
            Theme::HighContrast => "high-contrast"@,
            Theme::Auto => "auto"@,
        }
    }

    /// The name of the theme.
    pub fn name(&self) -> (r: &'static str)
        ensures
            r@ == self.label(),
    {
        match self {
            Theme::Default => "default",
            Theme::Dark => "dark",
            Theme::Light => "light",
            Theme::HighContrast => "high-contrast",
            Theme::Auto => "auto",
        }
    }

    /// The theme that is drawn with: `Auto` follows the terminal's background,
    /// or is the default where that is not known.
    pub open spec fn concrete(self, detected: Option<TerminalKind>) -> Theme {
        if self != Theme::Auto {
            self
        } else {
            match detected {
                Some(TerminalKind::Dark) => Theme::Dark,
                Some(TerminalKind::Light) => Theme::Light,
                None => Theme::Default,
            }
        }
    }

    /// The theme that is drawn with, given what was found out about the
    /// terminal's background.
    pub fn resolved(self, detected: Option<TerminalKind>) -> (r: Theme)
        ensures
            r == self.concrete(detected),
            r != Theme::Auto,
    {
        if self != Theme::Auto {
            return self;
        }
        match detected {
            Some(TerminalKind::Dark) => Theme::Dark,
            Some(TerminalKind::Light) => Theme::Light,
            None => Theme::Default,
        }
    }

    /// The colours of a theme.
    pub open spec fn colors(self, detected: Option<TerminalKind>) -> Palette {
        match self.concrete(detected) {
            Theme::Dark => Palette {
                fg: Color::Rgb(220, 220, 230),
                accent: Color::Rgb(120, 200, 220),
                running: Color::Rgb(240, 200, 80),
                done: Color::Rgb(120, 200, 120),
                cached: Color::Rgb(120, 160, 220),
                failed: Color::Rgb(230, 110, 110),
                queued: Color::Rgb(100, 100, 110),
                stderr: Color::Rgb(230, 130, 130),
                stdout: Color::Rgb(180, 180, 190),
                help: Color::Rgb(110, 110, 120),
                eta: Color::Rgb(190, 140, 220),
            },
            Theme::Light => Palette {
                fg: Color::Rgb(40, 40, 50),
                accent: Color::Rgb(20, 100, 130),
                running: Color::Rgb(170, 110, 0),
                done: Color::Rgb(40, 130, 50),
                cached: Color::Rgb(40, 80, 160),
                failed: Color::Rgb(170, 40, 40),
                queued: Color::Rgb(150, 150, 160),
                stderr: Color::Rgb(170, 60, 60),
                stdout: Color::Rgb(80, 80, 90),
                help: Color::Rgb(120, 120, 130),
                eta: Color::Rgb(120, 60, 160),
            },
            Theme::HighContrast => Palette {
                fg: Color::White,
                accent: Color::White,
                running: Color::Yellow,
                done: Color::Green,
                cached: Color::Cyan,
                failed: Color::Red,
                queued: Color::White,
                stderr: Color::Red,
                stdout: Color::White,
                help: Color::White,
                eta: Color::Magenta,
            },
            _ => Palette {
                fg: Color::White,
                accent: Color::Cyan,
                running: Color::Yellow,
                done: Color::Green,
                cached: Color::Blue,
                failed: Color::Red,
                queued: Color::DarkGray,
                stderr: Color::LightRed,
                stdout: Color::Gray,
                help: Color::DarkGray,
                eta: Color::Magenta,
            },
        }
    }

    /// The colours of the theme, given what was found out about the terminal's
    /// background.
    pub fn palette(&self, detected: Option<TerminalKind>) -> (r: Palette)
        ensures
            r == self.colors(detected),
    {
        match self.resolved(detected) {
            Theme::Default | Theme::Auto => Palette {
                fg: Color::White,
                accent: Color::Cyan,
                running: Color::Yellow,
                done: Color::Green,
                cached: Color::Blue,
                failed: Color::Red,
                queued: Color::DarkGray,
                stderr: Color::LightRed,
                stdout: Color::Gray,
                help: Color::DarkGray,
                eta: Color::Magenta,
            },
            Theme::Dark => Palette {
                fg: Color::Rgb(220, 220, 230),
                accent: Color::Rgb(120, 200, 220),
                running: Color::Rgb(240, 200, 80),
                done: Color::Rgb(120, 200, 120),
                cached: Color::Rgb(120, 160, 220),
                failed: Color::Rgb(230, 110, 110),
                queued: Color::Rgb(100, 100, 110),
                stderr: Color::Rgb(230, 130, 130),
                stdout: Color::Rgb(180, 180, 190),
                help: Color::Rgb(110, 110, 120),
                eta: Color::Rgb(190, 140, 220),
            },
            Theme::Light => Palette {
                fg: Color::Rgb(40, 40, 50),
                accent: Color::Rgb(20, 100, 130),
                running: Color::Rgb(170, 110, 0),
                done: Color::Rgb(40, 130, 50),
                cached: Color::Rgb(40, 80, 160),
                failed: Color::Rgb(170, 40, 40),
                queued: Color::Rgb(150, 150, 160),
                stderr: Color::Rgb(170, 60, 60),
                stdout: Color::Rgb(80, 80, 90),
                help: Color::Rgb(120, 120, 130),
                eta: Color::Rgb(120, 60, 160),
            },
            Theme::HighContrast => Palette {
                fg: Color::White,
                accent: Color::White,
                running: Color::Yellow,
                done: Color::Green,
                cached: Color::Cyan,
                failed: Color::Red,
                queued: Color::White,
                stderr: Color::Red,
                stdout: Color::White,
                help: Color::White,
                eta: Color::Magenta,
            },
        }
    }

    /// The theme of a name.
    pub fn from_name(s: &str) -> (r: Result<Theme, UnknownTheme>)
        ensures
            match r {
                Ok(theme) => theme_of(s@) == Some(theme),
                Err(e) => theme_of(s@) is None && e.name@ == lookup(s@),
            },
    {
        let t = trimmed(s);
        let v = to_chars(t.as_str());
        let v = lower_chars(&v);
        let n: usize = v.len();
        assert(v@.subrange(0, n as int) =~= v@);
        let key = from_chars(&v, 0, n);
        let k = key.as_str();
        if same(k, "") || same(k, "default") {
            Ok(Theme::Default)
        } else if same(k, "dark") {
            Ok(Theme::Dark)
        } else if same(k, "light") {
            Ok(Theme::Light)
        } else if same(k, "high-contrast") || same(k, "highcontrast") || same(k, "hc") {
            Ok(Theme::HighContrast)
        } else if same(k, "auto") {
            Ok(Theme::Auto)
        } else {
            Err(UnknownTheme { name: key })
        }
    }
}

impl Default for Theme {
    fn default() -> (r: Theme)
        ensures
            r == Theme::Default,
    {
        Theme::Default
    }
}

impl std::str::FromStr for Theme {
    type Err = UnknownTheme;

    /// The theme of that name, as [`Theme::from_name`] finds it.
    fn from_str(s: &str) -> (r: Result<Theme, UnknownTheme>)
        ensures
            match r {
                Ok(theme) => theme_of(s@) == Some(theme),
                Err(e) => theme_of(s@) is None && e.name@ == lookup(s@),
            },
    {
        Theme::from_name(s)
    }
}

/// A text in lower case without white space at its ends is looked up as it is.
proof fn lemma_plain_lookup(s: Seq<char>)
    requires
        s.len() > 0,
        forall|i: int| 0 <= i < s.len() ==> !is_white(#[trigger] s[i]) && lower_char(s[i]) == s[i],
    ensures
        lookup(s) == s,
{
    assert(!is_white(s[0]));
    assert(!is_white(s[s.len() - 1]));
    assert(trim_start(s) == s);
    assert(trim_end(s) == s);
    assert(lower(s) =~= s);
}

/// Each theme is found by its own name.
pub proof fn law_name_finds_theme(theme: Theme)
    ensures
        theme_of(theme.label()) == Some(theme),
{
    reveal_strlit("");
    reveal_strlit("default");
    reveal_strlit("dark");
    reveal_strlit("light");
    reveal_strlit("high-contrast");
    reveal_strlit("highcontrast");
    reveal_strlit("hc");
    reveal_strlit("auto");
    lemma_plain_lookup(theme.label());
    let k = theme.label();
    match theme {
        Theme::Default => {},
        Theme::Dark => {
            assert(k[1] == 'a');
        },
        Theme::Light => {},
        Theme::HighContrast => {},
        Theme::Auto => {
            assert(k[0] == 'a');
            assert("dark"@[0] == 'd');
        },
    }
}

/// Case does not matter to a name, nor does white space around it.
pub proof fn law_lookup_decides(a: Seq<char>, b: Seq<char>)
    requires
        lookup(a) == lookup(b),
    ensures
        theme_of(a) == theme_of(b),
{
}

/// No theme's name is blank.
pub proof fn law_labels_are_not_blank(theme: Theme)
    ensures
        trim(theme.label()) == theme.label(),
        theme.label().len() > 0,
{
    reveal_strlit("default");
    reveal_strlit("dark");
    reveal_strlit("light");
    reveal_strlit("high-contrast");
    reveal_strlit("auto");
    let k = theme.label();
    assert(!is_white(k[0]) && !is_white(k[k.len() - 1]));
    assert(trim_start(k) == k);
    assert(trim_end(k) == k);
}

/// A theme is drawn with as it is. Only the automatic one follows the terminal: dark on a
/// dark background, light on a light one, and the default where the background is not known.
pub proof fn law_only_auto_follows_the_terminal(theme: Theme, detected: Option<TerminalKind>)
    ensures
        theme != Theme::Auto ==> theme.concrete(detected) == theme && theme.colors(detected)
            == theme.colors(None),
        Theme::Auto.concrete(Some(TerminalKind::Dark)) == Theme::Dark,
        Theme::Auto.concrete(Some(TerminalKind::Light)) == Theme::Light,
        Theme::Auto.concrete(None) == Theme::Default,
        theme.concrete(detected) != Theme::Auto,
        theme.concrete(detected).concrete(detected) == theme.concrete(detected),
        theme.colors(detected) == theme.concrete(detected).colors(None),
{
}

/// In every theme a failed task can be told from a finished one, a running one and one from
/// the cache, and these from each other; and what went wrong is not written like what did
/// not.
pub proof fn law_states_have_colours_of_their_own(theme: Theme, detected: Option<TerminalKind>)
    ensures
        ({
            let p = theme.colors(detected);
            &&& p.failed != p.done
            &&& p.failed != p.running
            &&& p.failed != p.cached
            &&& p.failed != p.queued
            &&& p.done != p.running
            &&& p.done != p.cached
            &&& p.done != p.queued
            &&& p.running != p.cached
            &&& p.running != p.queued
            &&& p.stderr != p.stdout
        }),
{
}

/// Every theme has one name, by which it is found, however it is written; the theme of high
/// contrast is found by its short names too, and no name means the default. Any other name is
/// refused, and what is said of it names it and the names that there are.
pub proof fn law_names_of_the_themes(
    theme: Theme,
    label: &'static str,
    given: &str,
    r: Result<Theme, UnknownTheme>,
    unknown: UnknownTheme,
    text: String,
)
    requires
        call_ensures(Theme::name, (&theme,), label),
        call_ensures(Theme::from_name, (given,), r),
        call_ensures(UnknownTheme::message, (&unknown,), text),
    ensures
        theme == Theme::Default ==> label@ == "default"@,
        theme == Theme::Dark ==> label@ == "dark"@,
        theme == Theme::Light ==> label@ == "light"@,
        theme == Theme::HighContrast ==> label@ == "high-contrast"@,
        theme == Theme::Auto ==> label@ == "auto"@,
        lower(trim(given@)) == label@ ==> r == Ok::<Theme, UnknownTheme>(theme),
        lower(trim(given@)) == "hc"@ || lower(trim(given@)) == "highcontrast"@ ==> r == Ok::<
            Theme,
            UnknownTheme,
        >(Theme::HighContrast),
        trim(given@).len() == 0 ==> r == Ok::<Theme, UnknownTheme>(Theme::Default),
        (r matches Err(e) ==> e.name@ == lower(trim(given@))),
        r is Ok <==> {
            let key = lower(trim(given@));
            ||| key == ""@
            ||| key == "default"@
            ||| key == "dark"@
            ||| key == "light"@
            ||| key == "high-contrast"@
            ||| key == "highcontrast"@
            ||| key == "hc"@
            ||| key == "auto"@
        },
        text@ == "unknown theme '"@ + unknown.name@
            + "'; expected one of default, dark, light, high-contrast, auto"@,
{
    reveal_strlit("");
    reveal_strlit("default");
    reveal_strlit("dark");
    reveal_strlit("light");
    reveal_strlit("high-contrast");
    reveal_strlit("highcontrast");
    reveal_strlit("hc");
    reveal_strlit("auto");
    law_name_finds_theme(theme);
    lemma_plain_lookup(theme.label());
    assert("dark"@[0] == 'd' && "auto"@[0] == 'a');
    assert("hc"@.len() == 2 && "highcontrast"@.len() == 12 && "high-contrast"@.len() == 13);
    assert("default"@.len() == 7 && "dark"@.len() == 4 && "light"@.len() == 5 && ""@.len() == 0);
    if trim(given@).len() == 0 {
        assert(lower(trim(given@)) =~= ""@);
    }
}

/// The colours that are drawn with are those of the theme as the terminal has it.
pub proof fn law_colours_follow_the_theme(
    theme: Theme,
    detected: Option<TerminalKind>,
    shown: Theme,
    a: Palette,
    b: Palette,
)
    requires
        call_ensures(Theme::resolved, (theme, detected), shown),
        call_ensures(Theme::palette, (&theme, detected), a),
        call_ensures(Theme::palette, (&shown, None), b),
    ensures
        a == b,
        shown != Theme::Auto,
        theme != Theme::Auto ==> shown == theme,
        theme == Theme::Auto && detected == Some(TerminalKind::Dark) ==> shown == Theme::Dark,
        theme == Theme::Auto && detected == Some(TerminalKind::Light) ==> shown == Theme::Light,
        theme == Theme::Auto && detected is None ==> shown == Theme::Default,
        a.failed != a.done && a.failed != a.running && a.failed != a.cached,
{
}

/// Whether the colour is a grey, white and black among them.
pub open spec fn is_grey(c: Color) -> bool {
    match c {
        Color::Rgb(r, g, b) => -20 <= r - g <= 20 && -20 <= g - b <= 20 && -20 <= r - b <= 20,
        other => other == Color::White || other == Color::Gray || other == Color::DarkGray,
    }
}

/// Whether the colour is a red.
pub open spec fn is_red(c: Color) -> bool {
    match c {
        Color::Rgb(r, g, b) => r > g + 60 && r > b + 60,
        other => other == Color::Red || other == Color::LightRed,
    }
}

/// Whether the colour is a green.
pub open spec fn is_green(c: Color) -> bool {
    match c {
        Color::Rgb(r, g, b) => g > r + 60 && g > b + 60,
        other => other == Color::Green,
    }
}

/// Whether the colour is a yellow.
pub open spec fn is_yellow(c: Color) -> bool {
    match c {
        Color::Rgb(r, g, b) => r > g && g > b + 100,
        other => other == Color::Yellow,
    }
}

/// Whether the colour is a blue.
pub open spec fn is_blue(c: Color) -> bool {
    match c {
        Color::Rgb(r, g, b) => b > g + 50 && g > r,
        other => other == Color::Blue || other == Color::Cyan,
    }
}

/// Whether the colour is a violet.
pub open spec fn is_violet(c: Color) -> bool {
    match c {
        Color::Rgb(r, g, b) => b > r && r > g + 40,
        other => other == Color::Magenta,
    }
}

/// In every theme a failure and what is written to the error stream are red, success is green,
/// what runs is yellow, what comes from the cache is blue, and what is expected violet. Text is
/// grey, white or black: bright where the background is dark, and dark where it is light.
pub proof fn law_colours_mean_the_same_in_every_theme(theme: Theme, detected: Option<TerminalKind>, p: Palette)
    requires
        call_ensures(Theme::palette, (&theme, detected), p),
    ensures
        is_red(p.failed) && is_red(p.stderr),
        is_green(p.done),
        is_yellow(p.running),
        is_blue(p.cached),
        is_violet(p.eta),
        is_grey(p.fg) && is_grey(p.stdout) && is_grey(p.help) && is_grey(p.queued),
        theme.concrete(detected) == Theme::Dark ==> (p.fg matches Color::Rgb(r, g, b) && r >= 200 && g >= 200
            && b >= 200),
        theme.concrete(detected) == Theme::Light ==> (p.fg matches Color::Rgb(r, g, b) && r <= 60 && g <= 60
            && b <= 60),
        theme.concrete(detected) == Theme::HighContrast ==> p.fg == Color::White && p.help == Color::White
            && p.queued == Color::White && p.stdout == Color::White && p.accent == Color::White,
        theme.concrete(detected) == Theme::Default ==> p.fg == Color::White && p.help == Color::DarkGray
            && p.queued == Color::DarkGray && p.stdout == Color::Gray && p.accent == Color::Cyan,
{
}

} // verus!
