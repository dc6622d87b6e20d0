//! Settings: the colour palette and the art and image toggles.
use crate::helpers::{
    chars_of, equals, field_after, field_at, find_char, first_index, slice_chars, starts_with,
    string_of, strip_both, trim, trim_char,
};
use vstd::prelude::*;

verus! {

/// Which operating-system logo to draw, if any.
#[derive(Debug, Clone)]
pub enum OsArtSetting {
    Disabled,
    Auto,
    Specific(String),
}

/// The colour palette, each colour as red, green and blue components.
#[derive(Debug, Clone, Copy, PartialEq, Eq)]
pub struct ColorConfig {
    pub border: (u8, u8, u8),
    pub title: (u8, u8, u8),
    pub key: (u8, u8, u8),
    pub value: (u8, u8, u8),
    pub art_1: (u8, u8, u8),
    pub art_2: (u8, u8, u8),
    pub art_3: (u8, u8, u8),
    pub art_4: (u8, u8, u8),
    pub art_5: (u8, u8, u8),
    pub art_6: (u8, u8, u8),
    pub art_7: (u8, u8, u8),
    pub art_8: (u8, u8, u8),
    pub art_9: (u8, u8, u8),
}

/// The built-in palette: pink borders and titles, purple keys, cyan values and
/// a rainbow for the art.
pub open spec fn default_palette() -> ColorConfig {
    ColorConfig {
        border: (0xFF, 0x79, 0xC6),
        title: (0xFF, 0x79, 0xC6),
        key: (0xBD, 0x93, 0xF9),
        value: (0x8B, 0xE9, 0xFD),
        art_1: (0xFF, 0x00, 0x00),
        art_2: (0xFF, 0x80, 0x00),
        art_3: (0xFF, 0xFF, 0x00),
        art_4: (0x00, 0xFF, 0x00),
        art_5: (0x00, 0xFF, 0xFF),
        art_6: (0x00, 0xBF, 0xFF),
        art_7: (0x55, 0x55, 0xFF),
        art_8: (0xAA, 0x55, 0xFF),
        art_9: (0xFF, 0x55, 0xFF),
    }
}

impl Default for ColorConfig {
    fn default() -> (c: Self)
        ensures
            c == default_palette(),
    {
        ColorConfig {
            border: (0xFF, 0x79, 0xC6),
            title: (0xFF, 0x79, 0xC6),
            key: (0xBD, 0x93, 0xF9),
            value: (0x8B, 0xE9, 0xFD),
            art_1: (0xFF, 0x00, 0x00),
            art_2: (0xFF, 0x80, 0x00),
            art_3: (0xFF, 0xFF, 0x00),
            art_4: (0x00, 0xFF, 0x00),
            art_5: (0x00, 0xFF, 0xFF),
            art_6: (0x00, 0xBF, 0xFF),
            art_7: (0x55, 0x55, 0xFF),
            art_8: (0xAA, 0x55, 0xFF),
            art_9: (0xFF, 0x55, 0xFF),
        }
    }
}

/// Everything the settings file can set.
#[derive(Debug)]
pub struct Config {
    pub os_art: OsArtSetting,
    pub colors: ColorConfig,
    pub custom_art: Option<String>,
    pub image: bool,
    pub image_path: Option<String>,
}

impl Default for Config {
    fn default() -> (c: Self)
        ensures
            c.os_art is Disabled,
            c.colors == default_palette(),
            c.custom_art is None,
            !c.image,
            c.image_path is None,
    {
        Config {
            os_art: OsArtSetting::Disabled,
            colors: ColorConfig::default(),
            custom_art: None,
            image: false,
            image_path: None,
        }
    }
}


/// What an `OsArtSetting` says, with the operating system's name as text.
pub enum ArtModel {
    Disabled,
    Auto,
    Specific(Seq<char>),
}

/// What a `Config` says, with its strings as text.
pub struct ConfigModel {
    pub os_art: ArtModel,
    pub colors: ColorConfig,
    pub custom_art: Option<Seq<char>>,
    pub image: bool,
    pub image_path: Option<Seq<char>>,
}

pub open spec fn opt_text(o: Option<String>) -> Option<Seq<char>> {
    match o {
        Some(s) => Some(s@),
        None => None,
    }
}

impl View for Config {
    type V = ConfigModel;

    open spec fn view(&self) -> ConfigModel {
        ConfigModel {
            os_art: match self.os_art {
                OsArtSetting::Disabled => ArtModel::Disabled,
                OsArtSetting::Auto => ArtModel::Auto,
                OsArtSetting::Specific(name) => ArtModel::Specific(name@),
            },
            colors: self.colors,
            custom_art: opt_text(self.custom_art),
            image: self.image,
            image_path: opt_text(self.image_path),
        }
    }
}

/// The settings before any line of a settings file applies.
pub open spec fn default_model() -> ConfigModel {
    ConfigModel {
        os_art: ArtModel::Disabled,
        colors: default_palette(),
        custom_art: None,
        image: false,
        image_path: None,
    }
}

/// Value of a hexadecimal digit.
pub open spec fn hex_digit(c: char) -> Option<nat> {
    if '0' <= c && c <= '9' {
        Some((c as u32 - '0' as u32) as nat)
    } else if 'a' <= c && c <= 'f' {
        Some((c as u32 - 'a' as u32 + 10) as nat)
    } else if 'A' <= c && c <= 'F' {
        Some((c as u32 - 'A' as u32 + 10) as nat)
    } else {
        None
    }
}

/// A byte written as two hexadecimal digits, as `u8::from_str_radix` reads
/// them; a plus sign may stand for the first.
pub open spec fn hex_pair(a: char, b: char) -> Option<u8> {
    if a == '+' {
        match hex_digit(b) {
            Some(d) => Some(d as u8),
            None => None,
        }
    } else {
        match (hex_digit(a), hex_digit(b)) {
            (Some(x), Some(y)) => Some((16 * x + y) as u8),
            _ => None,
        }
    }
}

/// The digits of a colour: trimmed, without quotes, without one leading `#`.
pub open spec fn hex_body(s: Seq<char>) -> Seq<char> {
    let h = trim_char(trim(s), '"');
    if h.len() > 0 && h[0] == '#' {
        h.drop_first()
    } else {
        h
    }
}

/// The colour that `s` writes as six hexadecimal digits, as in `#FF79C6`.
pub open spec fn hex_color(s: Seq<char>) -> Option<(u8, u8, u8)> {
    let h = hex_body(s);
    if h.len() != 6 {
        None
    } else {
        match (hex_pair(h[0], h[1]), hex_pair(h[2], h[3]), hex_pair(h[4], h[5])) {
            (Some(r), Some(g), Some(b)) => Some((r, g, b)),
            _ => None,
        }
    }
}

fn digit_value(c: char) -> (r: Option<u8>)
    ensures
        match r {
            Some(v) => hex_digit(c) == Some(v as nat),
            None => hex_digit(c) is None,
        },
{
    if '0' <= c && c <= '9' {
        Some((c as u32 - '0' as u32) as u8)
    } else if 'a' <= c && c <= 'f' {
        Some((c as u32 - 'a' as u32 + 10) as u8)
    } else if 'A' <= c && c <= 'F' {
        Some((c as u32 - 'A' as u32 + 10) as u8)
    } else {
        None
    }
}

fn pair_value(a: char, b: char) -> (r: Option<u8>)
    ensures
        r == hex_pair(a, b),
{
    if a == '+' {
        digit_value(b)
    } else {
        match (digit_value(a), digit_value(b)) {
            (Some(x), Some(y)) => Some(16 * x + y),
            _ => None,
        }
    }
}

/// Reads a colour written as six hexadecimal digits, such as `#FF79C6` or
/// `"FF79C6"`.
pub fn parse_hex_color(hex: &str) -> (r: Option<(u8, u8, u8)>)
    ensures
        r == hex_color(hex@),
{
    let cs = chars_of(hex);
    let trimmed = strip_both(cs.as_slice(), true, ' ');
    let h = strip_both(trimmed.as_slice(), false, '"');
    let body = if h.len() > 0 && h[0] == '#' {
        slice_chars(h.as_slice(), 1, h.len())
    } else {
        h
    };
    proof {
        if h@.len() > 0 && h@[0] == '#' {
            assert(body@ =~= h@.drop_first());
        }
    }
    if body.len() != 6 {
        return None;
    }
    match (pair_value(body[0], body[1]), pair_value(body[2], body[3]), pair_value(body[4], body[5])) {
        (Some(r), Some(g), Some(b)) => Some((r, g, b)),
        _ => None,
    }
}

/// The palette with the colour named `key` set to `col`; unchanged for an
/// unknown name.
pub open spec fn set_color(c: ColorConfig, key: Seq<char>, col: (u8, u8, u8)) -> ColorConfig {
    if key == "border"@ {
        ColorConfig { border: col, ..c }
    } else if key == "title"@ {
        ColorConfig { title: col, ..c }
    } else if key == "key"@ {
        ColorConfig { key: col, ..c }
    } else if key == "value"@ {
        ColorConfig { value: col, ..c }
    } else if key == "art_1"@ {
        ColorConfig { art_1: col, ..c }
    } else if key == "art_2"@ {
        ColorConfig { art_2: col, ..c }
    } else if key == "art_3"@ {
        ColorConfig { art_3: col, ..c }
    } else if key == "art_4"@ {
        ColorConfig { art_4: col, ..c }
    } else if key == "art_5"@ {
        ColorConfig { art_5: col, ..c }
    } else if key == "art_6"@ {
        ColorConfig { art_6: col, ..c }
    } else if key == "art_7"@ {
        ColorConfig { art_7: col, ..c }
    } else if key == "art_8"@ {
        ColorConfig { art_8: col, ..c }
    } else if key == "art_9"@ {
        ColorConfig { art_9: col, ..c }
    } else {
        c
    }
}

fn apply_color(colors: &mut ColorConfig, key: &[char], col: (u8, u8, u8))
    ensures
        *final(colors) == set_color(*old(colors), key@, col),
{
    proof {
        reveal_strlit("border");
        reveal_strlit("title");
        reveal_strlit("key");
        reveal_strlit("value");
        reveal_strlit("art_1");
        reveal_strlit("art_2");
        reveal_strlit("art_3");
        reveal_strlit("art_4");
        reveal_strlit("art_5");
        reveal_strlit("art_6");
        reveal_strlit("art_7");
        reveal_strlit("art_8");
        reveal_strlit("art_9");
    }
    if equals(key, "border") {
        colors.border = col;
    } else if equals(key, "title") {
        colors.title = col;
    } else if equals(key, "key") {
        colors.key = col;
    } else if equals(key, "value") {
        colors.value = col;
    } else if equals(key, "art_1") {
        colors.art_1 = col;
    } else if equals(key, "art_2") {
        colors.art_2 = col;
    } else if equals(key, "art_3") {
        colors.art_3 = col;
    } else if equals(key, "art_4") {
        colors.art_4 = col;
    } else if equals(key, "art_5") {
        colors.art_5 = col;
    } else if equals(key, "art_6") {
        colors.art_6 = col;
    } else if equals(key, "art_7") {
        colors.art_7 = col;
    } else if equals(key, "art_8") {
        colors.art_8 = col;
    } else if equals(key, "art_9") {
        colors.art_9 = col;
    }
}



/// Whether `t` begins with `prefix`.
pub open spec fn begins(t: Seq<char>, prefix: Seq<char>) -> bool {
    prefix.len() <= t.len() && t.subrange(0, prefix.len() as int) == prefix
}

/// The text between the first and the second `=` of `t` (or its end), as
/// `split('=').nth(1)` gives it; none without an `=`.
pub open spec fn field_after_eq(t: Seq<char>) -> Option<Seq<char>> {
    field_after(t, '=')
}

/// Whether `v` begins and ends with a double quote.
pub open spec fn is_quoted(v: Seq<char>) -> bool {
    v.len() > 0 && v[0] == '"' && v.last() == '"'
}

/// `path` with a leading `~` replaced by the home directory where it starts
/// `~/` and the home directory is known.
pub open spec fn expand_home(path: Seq<char>, home: Option<Seq<char>>) -> Seq<char> {
    match home {
        Some(h) => if begins(path, seq!['~', '/']) {
            h + path.drop_first()
        } else {
            path
        },
        None => path,
    }
}

/// The quoted, non-empty path after the `=` of `t`, with the home directory expanded.
pub open spec fn quoted_path(t: Seq<char>, home: Option<Seq<char>>) -> Option<Seq<char>> {
    match field_after_eq(t) {
        Some(v0) => {
            let v = trim(v0);
            let p = trim_char(v, '"');
            if is_quoted(v) && p.len() > 0 {
                Some(expand_home(p, home))
            } else {
                None
            }
        },
        None => None,
    }
}

/// The art setting after an `os_art` line: `true` for detection, `false` for
/// none, a quoted non-empty name for that system's art.
pub open spec fn os_art_rule(a: ArtModel, t: Seq<char>) -> ArtModel {
    match field_after_eq(t) {
        Some(v0) => {
            let v = trim(v0);
            if v == "true"@ {
                ArtModel::Auto
            } else if v == "false"@ {
                ArtModel::Disabled
            } else if is_quoted(v) && trim_char(v, '"').len() > 0 {
                ArtModel::Specific(trim_char(v, '"'))
            } else {
                a
            }
        },
        None => a,
    }
}

/// The settings after a line `t` outside the colour table.
pub open spec fn settings_line(c: ConfigModel, t: Seq<char>, home: Option<Seq<char>>) -> ConfigModel {
    let c1 = if begins(t, "os_art"@) {
        ConfigModel { os_art: os_art_rule(c.os_art, t), ..c }
    } else {
        c
    };
    let c2 = if begins(t, "custom_art"@) && quoted_path(t, home) is Some {
        ConfigModel { custom_art: quoted_path(t, home), ..c1 }
    } else {
        c1
    };
    let c3 = if begins(t, "image"@) && !begins(t, "image_path"@) && field_after_eq(t) is Some {
        ConfigModel { image: trim(field_after_eq(t)->0) == "true"@, ..c2 }
    } else {
        c2
    };
    if begins(t, "image_path"@) && quoted_path(t, home) is Some {
        ConfigModel { image_path: quoted_path(t, home), ..c3 }
    } else {
        c3
    }
}

/// The settings after a line `t` of the colour table: `name = "#RRGGBB"`.
pub open spec fn color_line(c: ConfigModel, t: Seq<char>) -> ConfigModel {
    match first_index(t, '=') {
        Some(i) => match hex_color(t.subrange((i + 1) as int, t.len() as int)) {
            Some(col) => ConfigModel {
                colors: set_color(c.colors, trim(t.subrange(0, i as int)), col),
                ..c
            },
            None => c,
        },
        None => c,
    }
}

/// The settings and whether the colour table is open, after the line `raw`.
/// Blank lines and comments change nothing; a `[...]` header opens the colour
/// table when it is `[colors]` and closes it otherwise.
pub open spec fn config_step(st: (ConfigModel, bool), raw: Seq<char>, home: Option<Seq<char>>) -> (
    ConfigModel,
    bool,
) {
    let t = trim(raw);
    if t.len() == 0 || t[0] == '#' {
        st
    } else if t[0] == '[' {
        (st.0, t == "[colors]"@)
    } else if st.1 {
        (color_line(st.0, t), true)
    } else {
        (settings_line(st.0, t, home), false)
    }
}

/// The pieces of `s` between line feeds, as `split('\n')` gives them.
pub open spec fn segments(s: Seq<char>) -> Seq<Seq<char>>
    decreases s.len(),
{
    if s.len() == 0 {
        seq![Seq::empty()]
    } else {
        let p = segments(s.drop_last());
        if s.last() == '\n' {
            p.push(Seq::empty())
        } else {
            p.update(p.len() - 1, p.last().push(s.last()))
        }
    }
}

/// Splitting at line feeds always gives at least one piece.
pub proof fn lemma_segments_nonempty(s: Seq<char>)
    ensures
        segments(s).len() > 0,
    decreases s.len(),
{
    if s.len() > 0 {
        lemma_segments_nonempty(s.drop_last());
    }
}

/// The settings after the lines `lines`, in order.
pub open spec fn config_after(lines: Seq<Seq<char>>, home: Option<Seq<char>>) -> (ConfigModel, bool)
    decreases lines.len(),
{
    if lines.len() == 0 {
        (default_model(), false)
    } else {
        config_step(config_after(lines.drop_last(), home), lines.last(), home)
    }
}

fn field_value(t: &[char]) -> (r: Option<Vec<char>>)
    ensures
        match r {
            Some(v) => field_after_eq(t@) == Some(v@),
            None => field_after_eq(t@) is None,
        },
{
    field_at(t, '=')
}

fn path_value(t: &[char], home: Option<&str>) -> (r: Option<String>)
    ensures
        match r {
            Some(p) => quoted_path(t@, opt_str(home)) == Some(p@),
            None => quoted_path(t@, opt_str(home)) is None,
        },
{
    let v0 = match field_value(t) {
        Some(v) => v,
        None => return None,
    };
    let v = strip_both(v0.as_slice(), true, ' ');
    let p = strip_both(v.as_slice(), false, '"');
    if !(v.len() > 0 && v[0] == '"' && v[v.len() - 1] == '"' && p.len() > 0) {
        return None;
    }
    match home {
        Some(h) => {
            if starts_with(p.as_slice(), "~/") {
                proof {
                    reveal_strlit("~/");
                    assert("~/"@ =~= seq!['~', '/']);
                }
                let rest = slice_chars(p.as_slice(), 1, p.len());
                let mut expanded = h.to_string();
                expanded.append(string_of(rest.as_slice()).as_str());
                proof {
                    assert(rest@ =~= p@.drop_first());
                }
                Some(expanded)
            } else {
                proof {
                    reveal_strlit("~/");
                    assert("~/"@ =~= seq!['~', '/']);
                }
                Some(string_of(p.as_slice()))
            }
        },
        None => Some(string_of(p.as_slice())),
    }
}

pub open spec fn opt_str(o: Option<&str>) -> Option<Seq<char>> {
    match o {
        Some(s) => Some(s@),
        None => None,
    }
}



fn apply_settings(config: &mut Config, t: &[char], home: Option<&str>)
    ensures
        final(config)@ == settings_line(old(config)@, t@, opt_str(home)),
{
    proof {
        reveal_strlit("os_art");
        reveal_strlit("custom_art");
        reveal_strlit("image");
        reveal_strlit("image_path");
        reveal_strlit("true");
        reveal_strlit("false");
    }
    if starts_with(t, "os_art") {
        if let Some(v0) = field_value(t) {
            let v = strip_both(v0.as_slice(), true, ' ');
            if equals(v.as_slice(), "true") {
                config.os_art = OsArtSetting::Auto;
            } else if equals(v.as_slice(), "false") {
                config.os_art = OsArtSetting::Disabled;
            } else if v.len() > 0 && v[0] == '"' && v[v.len() - 1] == '"' {
                let name = strip_both(v.as_slice(), false, '"');
                if name.len() > 0 {
                    config.os_art = OsArtSetting::Specific(string_of(name.as_slice()));
                }
            }
        }
    }
    if starts_with(t, "custom_art") {
        if let Some(p) = path_value(t, home) {
            config.custom_art = Some(p);
        }
    }
    if starts_with(t, "image") && !starts_with(t, "image_path") {
        if let Some(v0) = field_value(t) {
            let v = strip_both(v0.as_slice(), true, ' ');
            config.image = equals(v.as_slice(), "true");
        }
    }
    if starts_with(t, "image_path") {
        if let Some(p) = path_value(t, home) {
            config.image_path = Some(p);
        }
    }
}

fn apply_line(config: &mut Config, in_colors: &mut bool, raw: &[char], home: Option<&str>)
    ensures
        (final(config)@, *final(in_colors)) == config_step(
            (old(config)@, *old(in_colors)),
            raw@,
            opt_str(home),
        ),
{
    proof {
        reveal_strlit("[colors]");
    }
    let t = strip_both(raw, true, ' ');
    if t.len() == 0 || t[0] == '#' {
        return;
    }
    if t[0] == '[' {
        *in_colors = equals(t.as_slice(), "[colors]");
        return;
    }
    if *in_colors {
        let n = t.len();
        if let Some(i) = find_char(t.as_slice(), '=') {
            proof {
                assert(first_index(t@, '=') == Some(i as nat)) by {
                    assert(t@[i as int] == '=');
                }
            }
            let key = strip_both(slice_chars(t.as_slice(), 0, i).as_slice(), true, ' ');
            let value = string_of(slice_chars(t.as_slice(), i + 1, n).as_slice());
            if let Some(col) = parse_hex_color(value.as_str()) {
                apply_color(&mut config.colors, key.as_slice(), col);
            }
        }
        return;
    }
    apply_settings(config, t.as_slice(), home);
}

/// Reads a settings file: a `[colors]` table of `name = "#RRGGBB"` lines, and
/// the `os_art`, `custom_art`, `image` and `image_path` settings, with `~/` in
/// paths standing for `home`. Unknown or malformed lines are passed over.
pub fn parse_config(content: &str, home: Option<&str>) -> (config: Config)
    ensures
        config@ == config_after(segments(content@), opt_str(home)).0,
{
    let cs = chars_of(content);
    let n = cs.len();
    let mut config = Config::default();
    let mut in_colors = false;
    let mut line: Vec<char> = Vec::new();
    let ghost h = opt_str(home);
    let ghost mut done: Seq<Seq<char>> = Seq::empty();
    assert(content@.take(0) =~= Seq::<char>::empty());
    assert(config@ == default_model());
    let mut i: usize = 0;
    while i < n
        invariant
            i <= n,
            n == cs@.len(),
            cs@ == content@,
            h == opt_str(home),
            segments(content@.take(i as int)) == done.push(line@),
            (config@, in_colors) == config_after(done, h),
        decreases n - i,
    {
        let ghost s1 = content@.take(i + 1);
        assert(s1.drop_last() =~= content@.take(i as int));
        assert(s1.last() == cs@[i as int]);
        if cs[i] == '\n' {
            let ghost old_done = done;
            apply_line(&mut config, &mut in_colors, line.as_slice(), home);
            proof {
                done = old_done.push(line@);
                assert(done.drop_last() =~= old_done);
                assert(done.last() == line@);
            }
            line = Vec::new();
            proof {
                assert(segments(s1) =~= done.push(line@));
            }
        } else {
            let ghost before = line@;
            line.push(cs[i]);
            proof {
                assert(segments(s1) =~= done.push(line@));
            }
        }
        i = i + 1;
    }
    apply_line(&mut config, &mut in_colors, line.as_slice(), home);
    proof {
        assert(content@.take(n as int) =~= content@);
        assert(done.push(line@).drop_last() =~= done);
    }
    config
}


} // verus!
