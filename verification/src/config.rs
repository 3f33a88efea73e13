//! Settings: their bounds, the files they name, the fonts to choose from.
//!
//! Sizes in points and pixels are not kept here.

use crate::link::open::{join_path, path_below};
use crate::outside::{lowercase, lowercase_of};
use crate::terminal::types::{clamped, MAX_TERMINAL_COLS, MAX_TERMINAL_ROWS};
use crate::text::{
    chars_of, is_text, is_text_le, owned, same_text, split, split_chars, split_lines, starts_with,
    string_of, strip_prefix, text_le, text_lines, text_order, texts, trim, trimmed, trimmed_start,
    trimming_is_idempotent,
};
use vstd::prelude::*;

verus! {

#[derive(Debug, Clone, Copy, PartialEq, Eq, Structural)]
pub enum FontBackendType {
    Fontdue,
    AbGlyph,
}

impl Default for FontBackendType {
    fn default() -> (v: Self)
        ensures
            v == FontBackendType::Fontdue,
    {
        FontBackendType::Fontdue
    }
}

#[derive(Debug, Clone, Copy, PartialEq, Eq, Structural)]
pub enum AppRendererType {
    Glow,
    Wgpu,
}

impl Default for AppRendererType {
    fn default() -> (v: Self)
        ensures
            v == AppRendererType::Glow,
    {
        AppRendererType::Glow
    }
}

#[derive(Debug, Clone, Copy, PartialEq, Eq, Structural)]
pub enum ScrollbarVisibility {
    Auto,
    Always,
}

impl Default for ScrollbarVisibility {
    fn default() -> (v: Self)
        ensures
            v == ScrollbarVisibility::Always,
    {
        ScrollbarVisibility::Always
    }
}

/// Where the tabs are shown.
#[derive(Debug, Clone, Copy, PartialEq, Eq, Structural)]
pub enum TabPosition {
    /// Across the top of the window.
    Top,
    /// In the sidebar.
    Side,
}

impl Default for TabPosition {
    fn default() -> (v: Self)
        ensures
            v == TabPosition::Top,
    {
        TabPosition::Top
    }
}

/// The settings that are no measures.
#[derive(Debug)]
pub struct Config {
    pub font_family: String,
    pub font_backend: FontBackendType,
    pub scrollbar_visibility: ScrollbarVisibility,
    pub tab_position: TabPosition,
    pub scrollback_lines: usize,
    pub cols: usize,
    pub rows: usize,
    pub theme: String,
    pub restore_session: bool,
    pub session_history_file: Option<String>,
    pub gpu_rendering: bool,
    pub app_renderer: AppRendererType,
    pub scroll_speed: u32,
    pub disable_alt_screen: bool,
    pub subpixel_rendering: bool,
    /// The shell to start, in place of the one that is found.
    pub shell: Option<String>,
    /// Whether programs in the terminal may read the clipboard.
    pub allow_clipboard_read: bool,
}

/// What a [`Config`] holds.
pub struct ConfigModel {
    pub font_family: Seq<char>,
    pub font_backend: FontBackendType,
    pub scrollbar_visibility: ScrollbarVisibility,
    pub tab_position: TabPosition,
    pub scrollback_lines: int,
    pub cols: int,
    pub rows: int,
    pub theme: Seq<char>,
    pub restore_session: bool,
    pub session_history_file: Option<Seq<char>>,
    pub gpu_rendering: bool,
    pub app_renderer: AppRendererType,
    pub scroll_speed: int,
    pub disable_alt_screen: bool,
    pub subpixel_rendering: bool,
    pub shell: Option<Seq<char>>,
    pub allow_clipboard_read: bool,
}

pub open spec fn opt_text(s: Option<String>) -> Option<Seq<char>> {
    match s {
        Some(s) => Some(s@),
        None => None,
    }
}

impl View for Config {
    type V = ConfigModel;

    open spec fn view(&self) -> ConfigModel {
        ConfigModel {
            font_family: self.font_family@,
            font_backend: self.font_backend,
            scrollbar_visibility: self.scrollbar_visibility,
            tab_position: self.tab_position,
            scrollback_lines: self.scrollback_lines as int,
            cols: self.cols as int,
            rows: self.rows as int,
            theme: self.theme@,
            restore_session: self.restore_session,
            session_history_file: opt_text(self.session_history_file),
            gpu_rendering: self.gpu_rendering,
            app_renderer: self.app_renderer,
            scroll_speed: self.scroll_speed as int,
            disable_alt_screen: self.disable_alt_screen,
            subpixel_rendering: self.subpixel_rendering,
            shell: opt_text(self.shell),
            allow_clipboard_read: self.allow_clipboard_read,
        }
    }
}

impl ConfigModel {
    /// The settings where nothing is set.
    pub open spec fn standard() -> Self {
        ConfigModel {
            font_family: "SauceCodePro Nerd Font"@,
            font_backend: FontBackendType::Fontdue,
            scrollbar_visibility: ScrollbarVisibility::Always,
            tab_position: TabPosition::Top,
            scrollback_lines: 10000,
            cols: 100,
            rows: 30,
            theme: "dark"@,
            restore_session: true,
            session_history_file: None,
            gpu_rendering: true,
            app_renderer: AppRendererType::Glow,
            scroll_speed: 3,
            disable_alt_screen: false,
            subpixel_rendering: true,
            shell: None,
            allow_clipboard_read: false,
        }
    }

    /// The settings with every number within its bounds, texts without white space
    /// around them, and nothing where a text is empty.
    pub open spec fn normal(self) -> Self {
        ConfigModel {
            scrollback_lines: clamped(self.scrollback_lines, 100, 100_000),
            scroll_speed: clamped(self.scroll_speed, 1, 10),
            cols: clamped(self.cols, 1, MAX_TERMINAL_COLS as int),
            rows: clamped(self.rows, 1, MAX_TERMINAL_ROWS as int),
            font_family: trimmed(self.font_family),
            theme: if trimmed(self.theme).len() == 0 {
                "dark"@
            } else {
                trimmed(self.theme)
            },
            shell: match self.shell {
                Some(shell) => if trimmed(shell).len() == 0 {
                    None
                } else {
                    Some(trimmed(shell))
                },
                None => None,
            },
            ..self
        }
    }
}

impl Default for Config {
    fn default() -> (config: Self)
        ensures
            config@ == ConfigModel::standard(),
    {
        Config {
            font_family: owned("SauceCodePro Nerd Font"),
            font_backend: FontBackendType::Fontdue,
            scrollbar_visibility: ScrollbarVisibility::Always,
            tab_position: TabPosition::Top,
            scrollback_lines: 10000,
            cols: 100,
            rows: 30,
            theme: owned("dark"),
            restore_session: true,
            session_history_file: None,
            gpu_rendering: true,
            app_renderer: AppRendererType::Glow,
            scroll_speed: 3,
            disable_alt_screen: false,
            subpixel_rendering: true,
            shell: None,
            allow_clipboard_read: false,
        }
    }
}

fn trim_text(s: &str) -> (t: String)
    ensures
        t@ == trimmed(s@),
{
    let chars = chars_of(s);
    string_of(trim(chars.as_slice()))
}

fn clamp(n: usize, low: usize, high: usize) -> (v: usize)
    requires
        low <= high,
    ensures
        v == clamped(n as int, low as int, high as int),
{
    if n < low {
        low
    } else if n > high {
        high
    } else {
        n
    }
}

impl Config {
    /// The settings within their bounds.
    pub fn normalized(self) -> (config: Self)
        ensures
            config@ == self@.normal(),
    {
        let mut config = self;
        config.scrollback_lines = Self::clamp_scrollback_lines(config.scrollback_lines);
        config.scroll_speed = Self::clamp_scroll_speed(config.scroll_speed);
        config.cols = clamp(config.cols, 1, MAX_TERMINAL_COLS);
        config.rows = clamp(config.rows, 1, MAX_TERMINAL_ROWS);
        config.font_family = trim_text(config.font_family.as_str());
        config.theme = trim_text(config.theme.as_str());
        if chars_of(config.theme.as_str()).len() == 0 {
            config.theme = owned("dark");
        }
        config.shell = match &config.shell {
            Some(shell) => {
                let shell = trim_text(shell.as_str());
                if chars_of(shell.as_str()).len() == 0 {
                    None
                } else {
                    Some(shell)
                }
            },
            None => None,
        };
        config
    }

    pub fn clamp_scrollback_lines(lines: usize) -> (n: usize)
        ensures
            n == clamped(lines as int, 100, 100_000),
    {
        clamp(lines, 100, 100_000)
    }

    pub fn clamp_scroll_speed(speed: u32) -> (n: u32)
        ensures
            n == clamped(speed as int, 1, 10),
    {
        if speed < 1 {
            1
        } else if speed > 10 {
            10
        } else {
            speed
        }
    }
}

/// Settings within their bounds stay as they are.
pub proof fn normalizing_is_idempotent(config: ConfigModel)
    ensures
        config.normal().normal() == config.normal(),
{
    trimming_is_idempotent(config.font_family);
    trimming_is_idempotent(config.theme);
    if let Some(shell) = config.shell {
        trimming_is_idempotent(shell);
    }
    reveal_strlit("dark");
    assert(trimmed_start("dark"@) == "dark"@);
}

/// Why there is no path.
#[derive(Debug, Clone, Copy, PartialEq, Eq, Structural)]
pub enum PathError {
    /// The directory for settings is not known.
    NoConfigDirectory,
}

fn below(base: &str, name: &str) -> (path: String)
    ensures
        path@ == path_below(base@, name@),
{
    let chars = chars_of(name);
    join_path(base, chars.as_slice())
}

/// A text without the slashes at its start.
pub open spec fn after_slashes(s: Seq<char>) -> Seq<char>
    decreases s.len(),
{
    if s.len() > 0 && s[0] == '/' {
        after_slashes(s.drop_first())
    } else {
        s
    }
}

/// What a path names below the home directory, where it starts with `~`.
pub open spec fn home_part(path: Seq<char>) -> Option<Seq<char>> {
    if path == "~"@ {
        Some(Seq::empty())
    } else if "~/"@.is_prefix_of(path) {
        Some(after_slashes(path.subrange(2, path.len() as int)))
    } else {
        None
    }
}

/// The file that the sessions are kept in: the one that is set, taken below the home
/// directory where it starts with `~` and below the settings' directory where it is
/// relative, or the standard one.
pub open spec fn history_path(
    file: Option<Seq<char>>,
    config_dir: Seq<char>,
    home: Option<Seq<char>>,
) -> Seq<char> {
    let dir = path_below(config_dir, "jterm3"@);
    match file {
        None => path_below(dir, "session_history.json"@),
        Some(path) => if "/"@.is_prefix_of(path) {
            path
        } else if home_part(path) is Some && home is Some {
            if home_part(path)->0.len() == 0 {
                home->0
            } else {
                path_below(home->0, home_part(path)->0)
            }
        } else {
            path_below(dir, path)
        },
    }
}

fn skip_slashes<'a>(s: &'a [char]) -> (rest: &'a [char])
    ensures
        rest@ == after_slashes(s@),
{
    let mut i: usize = 0;
    proof {
        assert(s@.subrange(0, s@.len() as int) =~= s@);
    }
    while i < s.len() && s[i] == '/'
        invariant
            i <= s@.len(),
            after_slashes(s@.subrange(i as int, s@.len() as int)) == after_slashes(s@),
        decreases s@.len() - i,
    {
        proof {
            assert(s@.subrange(i as int, s@.len() as int).drop_first() =~= s@.subrange(
                i + 1,
                s@.len() as int,
            ));
        }
        i = i + 1;
    }
    vstd::slice::slice_subrange(s, i, s.len())
}

impl Config {
    /// The file that the sessions are kept in. The directory for settings and the home
    /// directory are the user's.
    pub fn session_history_path(&self, config_dir: Option<&str>, home: Option<&str>) -> (path: Result<
        String,
        PathError,
    >)
        ensures
            path is Ok <==> config_dir is Some,
            path matches Ok(path) ==> path@ == history_path(
                opt_text(self.session_history_file),
                config_dir->0@,
                match home {
                    Some(home) => Some(home@),
                    None => None,
                },
            ),
    {
        let config_dir = match config_dir {
            Some(dir) => dir,
            None => {
                return Err(PathError::NoConfigDirectory);
            },
        };
        let dir = below(config_dir, "jterm3");
        let file = match &self.session_history_file {
            Some(file) => file,
            None => {
                return Ok(below(dir.as_str(), "session_history.json"));
            },
        };
        let chars = chars_of(file.as_str());
        if starts_with(chars.as_slice(), "/") {
            return Ok(owned(file.as_str()));
        }
        if let Some(home) = home {
            if is_text(chars.as_slice(), "~") {
                return Ok(owned(home));
            }
            if let Some(rest) = strip_prefix(chars.as_slice(), "~/") {
                proof {
                    reveal_strlit("~/");
                }
                let rest = skip_slashes(rest);
                if rest.len() == 0 {
                    return Ok(owned(home));
                }
                return Ok(join_path(home, rest));
            }
        }
        Ok(join_path(dir.as_str(), chars.as_slice()))
    }

    /// Where the settings are kept, below the directory for settings.
    pub fn config_path(config_dir: Option<&str>) -> (path: Result<String, PathError>)
        ensures
            path is Ok <==> config_dir is Some,
            path matches Ok(path) ==> path@ == path_below(
                path_below(config_dir->0@, "jterm3"@),
                "config.toml"@,
            ),
    {
        match config_dir {
            Some(config_dir) => {
                let dir = below(config_dir, "jterm3");
                Ok(below(dir.as_str(), "config.toml"))
            },
            None => Err(PathError::NoConfigDirectory),
        }
    }
}

/// The fonts that are looked for, in this order, to show a terminal's own symbols.
pub open spec fn nerd_fonts() -> Seq<Seq<char>> {
    seq![
        "SauceCodePro Nerd Font Mono"@,
        "JetBrainsMono Nerd Font Mono"@,
        "JetBrains Mono Nerd Font"@,
        "JetBrainsMono Nerd Font"@,
        "SauceCodePro Nerd Font"@,
        "Monokoi Nerd Font Mono"@,
        "Monokoi Nerd Font"@,
        "FiraCode Nerd Font"@,
    ]
}

/// The fonts that are looked for, in this order, to show a terminal's own symbols.
pub fn nerd_font_candidates() -> (fonts: Vec<String>)
    ensures
        texts(fonts@) == nerd_fonts(),
{
    let fonts: Vec<String> = vec![
        owned("SauceCodePro Nerd Font Mono"),
        owned("JetBrainsMono Nerd Font Mono"),
        owned("JetBrains Mono Nerd Font"),
        owned("JetBrainsMono Nerd Font"),
        owned("SauceCodePro Nerd Font"),
        owned("Monokoi Nerd Font Mono"),
        owned("Monokoi Nerd Font"),
        owned("FiraCode Nerd Font"),
    ];
    proof {
        assert(texts(fonts@) =~= nerd_fonts());
    }
    fonts
}

/// The fonts that are looked for, in this order, to show mathematical symbols.
pub fn math_font_candidates() -> (fonts: Vec<String>)
    ensures
        texts(fonts@) == seq!["Noto Sans Math"@, "Noto Sans Symbols2"@, "OpenSymbol"@],
{
    let fonts: Vec<String> = vec![
        owned("Noto Sans Math"),
        owned("Noto Sans Symbols2"),
        owned("OpenSymbol"),
    ];
    proof {
        assert(texts(fonts@) =~= seq!["Noto Sans Math"@, "Noto Sans Symbols2"@, "OpenSymbol"@]);
    }
    fonts
}

/// The first of the families that a line of a font list names, which are set off by
/// commas.
pub open spec fn family_of(line: Seq<char>) -> Seq<char> {
    trimmed(split(line, ',')[0])
}

/// Whether a font is among some, whatever its case.
pub open spec fn is_listed(family: Seq<char>, families: Seq<Seq<char>>) -> bool {
    exists|i: int|
        0 <= i < families.len() && lowercase_of(#[trigger] families[i]) == lowercase_of(family)
}

/// A font put before the first one that comes after it.
pub open spec fn family_inserted(family: Seq<char>, families: Seq<Seq<char>>) -> Seq<Seq<char>>
    decreases families.len(),
{
    if families.len() == 0 || text_le(lowercase_of(family), lowercase_of(families[0])) {
        seq![family] + families
    } else {
        seq![families[0]] + family_inserted(family, families.drop_first())
    }
}

/// The fonts that the lines of a font list name, each once, in alphabetic order.
pub open spec fn font_families(lines: Seq<Seq<char>>) -> Seq<Seq<char>>
    decreases lines.len(),
{
    if lines.len() == 0 {
        Seq::empty()
    } else {
        let before = font_families(lines.drop_last());
        let family = family_of(lines.last());
        if family.len() == 0 || is_listed(family, before) {
            before
        } else {
            family_inserted(family, before)
        }
    }
}

/// Whether fonts are in alphabetic order, each there once, whatever their case.
pub open spec fn in_font_order(families: Seq<Seq<char>>) -> bool {
    forall|i: int, j: int|
        0 <= i < j < families.len() ==> text_le(
            lowercase_of(#[trigger] families[i]),
            lowercase_of(#[trigger] families[j]),
        ) && lowercase_of(families[i]) != lowercase_of(families[j])
}

proof fn lemma_family_inserted(family: Seq<char>, families: Seq<Seq<char>>)
    requires
        in_font_order(families),
        !is_listed(family, families),
    ensures
        in_font_order(family_inserted(family, families)),
        family_inserted(family, families).len() == families.len() + 1,
        forall|k: int|
            0 <= k < families.len() + 1 ==> (#[trigger] family_inserted(family, families)[k]
                == family || families.contains(family_inserted(family, families)[k])),
    decreases families.len(),
{
    let all = family_inserted(family, families);
    let key = lowercase_of(family);
    if families.len() == 0 {
        assert(all =~= seq![family]);
    } else if text_le(key, lowercase_of(families[0])) {
        assert forall|k: int| 0 <= k < all.len() implies (#[trigger] all[k] == family
            || families.contains(all[k])) by {
            if k > 0 {
                assert(all[k] == families[k - 1]);
            }
        }
        assert forall|i: int, j: int| 0 <= i < j < all.len() implies text_le(
            lowercase_of(#[trigger] all[i]),
            lowercase_of(#[trigger] all[j]),
        ) && lowercase_of(all[i]) != lowercase_of(all[j]) by {
            assert(all[j] == families[j - 1]);
            if i == 0 {
                text_order(key, lowercase_of(families[0]), lowercase_of(families[j - 1]));
                if j > 1 {
                    assert(text_le(lowercase_of(families[0]), lowercase_of(families[j - 1])));
                }
            } else {
                assert(all[i] == families[i - 1]);
            }
        }
    } else {
        let rest = families.drop_first();
        assert forall|i: int| 0 <= i < rest.len() implies lowercase_of(#[trigger] rest[i])
            != key by {
            assert(rest[i] == families[i + 1]);
        }
        assert forall|i: int, j: int| 0 <= i < j < rest.len() implies text_le(
            lowercase_of(#[trigger] rest[i]),
            lowercase_of(#[trigger] rest[j]),
        ) && lowercase_of(rest[i]) != lowercase_of(rest[j]) by {
            assert(rest[i] == families[i + 1]);
            assert(rest[j] == families[j + 1]);
        }
        lemma_family_inserted(family, rest);
        let sub = family_inserted(family, rest);
        text_order(key, lowercase_of(families[0]), key);
        assert forall|k: int| 0 <= k < all.len() implies (#[trigger] all[k] == family
            || families.contains(all[k])) by {
            if k == 0 {
                assert(all[0] == families[0]);
            } else {
                assert(all[k] == sub[k - 1]);
                if sub[k - 1] != family {
                    assert(rest.contains(sub[k - 1]));
                    let m = choose|m: int| 0 <= m < rest.len() && rest[m] == sub[k - 1];
                    assert(families[m + 1] == sub[k - 1]);
                }
            }
        }
        assert forall|i: int, j: int| 0 <= i < j < all.len() implies text_le(
            lowercase_of(#[trigger] all[i]),
            lowercase_of(#[trigger] all[j]),
        ) && lowercase_of(all[i]) != lowercase_of(all[j]) by {
            assert(all[j] == sub[j - 1]);
            if i > 0 {
                assert(all[i] == sub[i - 1]);
            } else if sub[j - 1] != family {
                assert(rest.contains(sub[j - 1]));
                let m = choose|m: int| 0 <= m < rest.len() && rest[m] == sub[j - 1];
                assert(rest[m] == families[m + 1]);
                assert(text_le(lowercase_of(families[0]), lowercase_of(families[m + 1])));
            }
        }
    }
}

/// The fonts of a font list come in alphabetic order, and none comes twice or has no
/// name.
pub proof fn fonts_are_in_order(lines: Seq<Seq<char>>)
    ensures
        in_font_order(font_families(lines)),
        font_families(lines).len() <= lines.len(),
        forall|k: int|
            0 <= k < font_families(lines).len() ==> (#[trigger] font_families(lines)[k]).len() > 0,
    decreases lines.len(),
{
    if lines.len() > 0 {
        let before = font_families(lines.drop_last());
        let family = family_of(lines.last());
        fonts_are_in_order(lines.drop_last());
        if family.len() > 0 && !is_listed(family, before) {
            lemma_family_inserted(family, before);
            let all = font_families(lines);
            assert forall|k: int| 0 <= k < all.len() implies (#[trigger] all[k]).len() > 0 by {
                assert(all[k] == family || before.contains(all[k]));
            }
        }
    }
}

fn first_family_of(line: &[char]) -> (family: String)
    ensures
        family@ == family_of(line@),
{
    let parts = split_chars(line, ',');
    string_of(trim(parts[0]))
}

/// Whether a font is among some, whatever its case, and where it goes among them.
fn family_position(family: &str, families: &Vec<String>) -> (at: Option<usize>)
    ensures
        at is None <==> is_listed(family@, texts(families@)),
        at matches Some(at) ==> at <= families@.len() && family_inserted(
            family@,
            texts(families@),
        ) == texts(families@).insert(at as int, family@),
{
    let key = lowercase(family);
    let ghost all = texts(families@);
    let mut i: usize = 0;
    while i < families.len()
        invariant
            i <= families@.len(),
            key@ == lowercase_of(family@),
            all == texts(families@),
            forall|k: int| 0 <= k < i ==> lowercase_of(#[trigger] all[k]) != key@,
        decreases families@.len() - i,
    {
        let other = lowercase(families[i].as_str());
        if same_text(other.as_str(), key.as_str()) {
            proof {
                assert(all[i as int] == families@[i as int]@);
            }
            return None;
        }
        i = i + 1;
    }
    let mut at: usize = 0;
    proof {
        assert(all.subrange(0, all.len() as int) =~= all);
        assert(all.subrange(0, 0) + family_inserted(family@, all) =~= family_inserted(family@, all));
    }
    while at < families.len()
        invariant
            at <= families@.len(),
            key@ == lowercase_of(family@),
            all == texts(families@),
            !is_listed(family@, all),
            family_inserted(family@, all) == all.subrange(0, at as int) + family_inserted(
                family@,
                all.subrange(at as int, all.len() as int),
            ),
        decreases families@.len() - at,
    {
        let ghost rest = all.subrange(at as int, all.len() as int);
        proof {
            assert(rest[0] == all[at as int]);
        }
        let other = lowercase(families[at].as_str());
        if is_text_le(key.as_str(), other.as_str()) {
            proof {
                assert(all.subrange(0, at as int) + (seq![family@] + rest) =~= all.insert(
                    at as int,
                    family@,
                ));
            }
            return Some(at);
        }
        proof {
            assert(rest.drop_first() =~= all.subrange(at + 1, all.len() as int));
            let sub = family_inserted(family@, all.subrange(at + 1, all.len() as int));
            assert(all.subrange(0, at as int) + (seq![rest[0]] + sub) =~= all.subrange(0, at + 1)
                + sub);
        }
        at = at + 1;
    }
    proof {
        let rest = all.subrange(at as int, all.len() as int);
        assert(all.subrange(0, at as int) + (seq![family@] + rest) =~= all.insert(
            at as int,
            family@,
        ));
    }
    Some(at)
}

/// The fonts that a font list names, each once, in alphabetic order.
pub fn listed_fonts(listing: &str) -> (families: Vec<String>)
    ensures
        texts(families@) == font_families(text_lines(listing@)),
{
    let chars = chars_of(listing);
    let lines = split_lines(chars.as_slice());
    let ghost all = texts(lines@);
    let mut families: Vec<String> = Vec::new();
    let mut i: usize = 0;
    proof {
        assert(all.subrange(0, 0) =~= Seq::empty());
        assert(texts(families@) =~= font_families(all.subrange(0, 0)));
    }
    while i < lines.len()
        invariant
            i <= lines@.len(),
            all == texts(lines@),
            texts(families@) == font_families(all.subrange(0, i as int)),
        decreases lines@.len() - i,
    {
        proof {
            assert(all.subrange(0, i + 1).drop_last() =~= all.subrange(0, i as int));
            assert(all.subrange(0, i + 1).last() == lines@[i as int]@);
        }
        let line = chars_of(lines[i].as_str());
        let family = first_family_of(line.as_slice());
        if chars_of(family.as_str()).len() > 0 {
            if let Some(at) = family_position(family.as_str(), &families) {
                let ghost now = texts(families@);
                families.insert(at, family);
                proof {
                    assert(texts(families@) =~= now.insert(at as int, family@));
                }
            }
        }
        i = i + 1;
    }
    proof {
        assert(all.subrange(0, i as int) =~= all);
    }
    families
}

/// The first font that the lines of an answer name.
pub open spec fn first_named(lines: Seq<Seq<char>>) -> Option<Seq<char>>
    decreases lines.len(),
{
    if lines.len() == 0 {
        None
    } else if family_of(lines[0]).len() > 0 {
        Some(family_of(lines[0]))
    } else {
        first_named(lines.drop_first())
    }
}

/// The font that an answer names.
pub fn matched_font(answer: &str) -> (family: Option<String>)
    ensures
        opt_text(family) == first_named(text_lines(answer@)),
{
    let chars = chars_of(answer);
    let lines = split_lines(chars.as_slice());
    let ghost all = texts(lines@);
    let mut i: usize = 0;
    proof {
        assert(all.subrange(0, all.len() as int) =~= all);
    }
    while i < lines.len()
        invariant
            i <= lines@.len(),
            all == texts(lines@),
            all == text_lines(answer@),
            first_named(all.subrange(i as int, all.len() as int)) == first_named(all),
        decreases lines@.len() - i,
    {
        let line = chars_of(lines[i].as_str());
        let family = first_family_of(line.as_slice());
        proof {
            let rest = all.subrange(i as int, all.len() as int);
            assert(rest[0] == lines@[i as int]@);
            assert(rest.drop_first() =~= all.subrange(i + 1, all.len() as int));
        }
        if chars_of(family.as_str()).len() > 0 {
            return Some(family);
        }
        i = i + 1;
    }
    None
}

/// What asking for a font gave.
#[derive(Debug, PartialEq, Eq)]
pub enum FontAnswer {
    /// The font, under its first name.
    Found(String),
    /// Another font: the next one may be asked for.
    Another,
    /// No answer: there is no use in asking on.
    Silence,
}

/// Whether one of the names in a line, which are set off by commas, is the given one.
pub open spec fn names_font(names: Seq<Seq<char>>, font: Seq<char>) -> bool {
    exists|i: int| 0 <= i < names.len() && trimmed(#[trigger] names[i]) == font
}

/// What the answer to asking for a font means: it names the font that is used in its
/// stead, which may be the font itself.
pub fn font_answer(candidate: &str, answer: &str) -> (found: FontAnswer)
    ensures
        match found {
            FontAnswer::Silence => text_lines(answer@).len() == 0,
            FontAnswer::Found(family) => text_lines(answer@).len() > 0 && names_font(
                split(lowercase_of(trimmed(text_lines(answer@)[0])), ','),
                lowercase_of(candidate@),
            ) && family@ == family_of(trimmed(text_lines(answer@)[0])),
            FontAnswer::Another => text_lines(answer@).len() > 0 && !names_font(
                split(lowercase_of(trimmed(text_lines(answer@)[0])), ','),
                lowercase_of(candidate@),
            ),
        },
{
    let chars = chars_of(answer);
    let lines = split_lines(chars.as_slice());
    if lines.len() == 0 {
        return FontAnswer::Silence;
    }
    proof {
        assert(texts(lines@)[0] == lines@[0]@);
    }
    let line = trim_text(lines[0].as_str());
    let line_chars = chars_of(line.as_str());
    let lower = lowercase(line.as_str());
    let lower_chars = chars_of(lower.as_str());
    let wanted = lowercase(candidate);
    let names = split_chars(lower_chars.as_slice(), ',');
    let ghost all = split(lower@, ',');
    let mut i: usize = 0;
    while i < names.len()
        invariant
            i <= names@.len(),
            names@.len() == all.len(),
            forall|k: int| 0 <= k < all.len() ==> #[trigger] names@[k]@ == all[k],
            wanted@ == lowercase_of(candidate@),
            forall|k: int| 0 <= k < i ==> trimmed(#[trigger] all[k]) != wanted@,
            line_chars@ == line@,
            line@ == trimmed(text_lines(answer@)[0]),
            text_lines(answer@).len() > 0,
            all == split(lowercase_of(trimmed(text_lines(answer@)[0])), ','),
        decreases names@.len() - i,
    {
        proof {
            assert(names@[i as int]@ == all[i as int]);
        }
        if is_text(trim(names[i]), wanted.as_str()) {
            return FontAnswer::Found(first_family_of(line_chars.as_slice()));
        }
        i = i + 1;
    }
    FontAnswer::Another
}

/// Settings within their ranges are kept: from 100 to 100000 lines of scrollback, a speed
/// from 1 to 10, up to 1024 columns and 512 rows. What is below or above is brought to the
/// nearest value of the range.
pub proof fn settings_are_kept_within_their_ranges(config: ConfigModel)
    ensures
        ({
            let r = config.normal();
            &&& 100 <= config.scrollback_lines <= 100_000 ==> r.scrollback_lines
                == config.scrollback_lines
            &&& config.scrollback_lines < 100 ==> r.scrollback_lines == 100
            &&& config.scrollback_lines > 100_000 ==> r.scrollback_lines == 100_000
            &&& 1 <= config.scroll_speed <= 10 ==> r.scroll_speed == config.scroll_speed
            &&& config.scroll_speed < 1 ==> r.scroll_speed == 1
            &&& config.scroll_speed > 10 ==> r.scroll_speed == 10
            &&& 1 <= config.cols <= 1024 ==> r.cols == config.cols
            &&& config.cols < 1 ==> r.cols == 1
            &&& config.cols > 1024 ==> r.cols == 1024
            &&& 1 <= config.rows <= 512 ==> r.rows == config.rows
            &&& config.rows < 1 ==> r.rows == 1
            &&& config.rows > 512 ==> r.rows == 512
            &&& r.restore_session == config.restore_session
            &&& r.allow_clipboard_read == config.allow_clipboard_read
            &&& r.disable_alt_screen == config.disable_alt_screen
            &&& r.tab_position == config.tab_position
            &&& r.scrollbar_visibility == config.scrollbar_visibility
            &&& r.session_history_file == config.session_history_file
        }),
{
}

/// The sessions are kept in the file that is set: as it is where it starts at the root,
/// below the home directory where it starts with `~/`, and otherwise below the directory of
/// the settings; without one, in a file of its own there.
pub proof fn sessions_are_kept_where_it_is_set(
    path: Seq<char>,
    dir: Seq<char>,
    home: Option<Seq<char>>,
)
    requires
        path.len() > 0,
        dir.len() > 0,
        dir.last() != '/',
        home matches Some(h) ==> h.len() > 0 && h.last() != '/',
    ensures
        path[0] == '/' ==> history_path(Some(path), dir, home) == path,
        path[0] != '/' && path[0] != '~' ==> history_path(Some(path), dir, home) == dir
            + "/jterm3/"@ + path,
        path.len() > 2 && path[0] == '~' && path[1] == '/' && path[2] != '/' && home is Some
            ==> history_path(Some(path), dir, home) == home->0 + path.subrange(
            1,
            path.len() as int,
        ),
        history_path(None, dir, home) == dir + "/jterm3/session_history.json"@,
{
    reveal_strlit("/");
    reveal_strlit("~");
    reveal_strlit("~/");
    reveal_strlit("jterm3");
    reveal_strlit("/jterm3/");
    reveal_strlit("session_history.json");
    reveal_strlit("/jterm3/session_history.json");
    let own = path_below(dir, "jterm3"@);
    assert(own =~= dir + "/"@ + "jterm3"@);
    assert(own.last() == '3');
    assert(path_below(own, path) =~= dir + "/jterm3/"@ + path);
    assert(path_below(own, "session_history.json"@) =~= dir + "/jterm3/session_history.json"@);
    assert(path.subrange(0, 1)[0] == path[0]);
    if path[0] == '/' {
        assert("/"@ =~= path.subrange(0, 1));
    }
    if "/"@.is_prefix_of(path) {
        assert(path.subrange(0, 1)[0] == '/');
    }
    if path == "~"@ {
        assert(path[0] == '~');
    }
    if "~/"@.is_prefix_of(path) {
        assert(path.subrange(0, 2)[0] == path[0]);
    }
    if path.len() > 2 && path[0] == '~' && path[1] == '/' && path[2] != '/' && home is Some {
        assert("~/"@ =~= path.subrange(0, 2));
        let rest = path.subrange(2, path.len() as int);
        assert(rest[0] == path[2]);
        assert(after_slashes(rest) == rest);
        assert(path_below(home->0, rest) =~= home->0 + path.subrange(1, path.len() as int));
    }
}

} // verus!
