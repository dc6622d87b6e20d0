//! Which font the terminal uses, and whether it carries Nerd Font glyphs.
use crate::configloader::begins;
use crate::coremodules::{lines_of, strip_repeated, text_lines};
use crate::helpers::{
    contains_chars, contains_str, equals, field_after, field_at, has_sub, same_text, starts_with,
    string_of, strip_both, strip_start, trim, trim_char,
};
use vstd::prelude::*;

verus! {

/// Whether the font's name marks it as a Nerd Font: it holds `NF` or `Nerd Font`.
pub fn is_nerd_font(font: &str) -> (r: bool)
    ensures
        r == (has_sub(font@, seq!['N', 'F']) || has_sub(
            font@,
            seq!['N', 'e', 'r', 'd', ' ', 'F', 'o', 'n', 't'],
        )),
{
    proof {
        reveal_strlit("NF");
        reveal_strlit("Nerd Font");
        assert("NF"@ =~= seq!['N', 'F']);
        assert("Nerd Font"@ =~= seq!['N', 'e', 'r', 'd', ' ', 'F', 'o', 'n', 't']);
    }
    contains_str(font, "NF") || contains_str(font, "Nerd Font")
}


/// The font named in each terminal's own settings, where one was found.
pub struct FontSources {
    pub kitty: Option<String>,
    pub alacritty: Option<String>,
    pub foot: Option<String>,
    pub ghostty: Option<String>,
    pub konsole: Option<String>,
    pub gnome_terminal: Option<String>,
}

/// The text of an optional string.
pub open spec fn opt_text(o: Option<String>) -> Option<Seq<char>> {
    match o {
        Some(s) => Some(s@),
        None => None,
    }
}

/// The font that the settings of the terminal named `term` give, for the
/// terminals whose settings are read.
pub open spec fn preferred_font(term: Seq<char>, src: FontSources) -> Option<Seq<char>> {
    if term == seq!['a', 'l', 'a', 'c', 'r', 'i', 't', 't', 'y'] {
        opt_text(src.alacritty)
    } else if term == seq!['k', 'i', 't', 't', 'y'] {
        opt_text(src.kitty)
    } else if term == seq!['f', 'o', 'o', 't'] {
        opt_text(src.foot)
    } else if term == seq!['g', 'h', 'o', 's', 't', 't', 'y'] {
        opt_text(src.ghostty)
    } else if term == seq![
        'g', 'n', 'o', 'm', 'e', ' ', 't', 'e', 'r', 'm', 'i', 'n', 'a', 'l',
    ] {
        opt_text(src.gnome_terminal)
    } else if term == seq!['k', 'o', 'n', 's', 'o', 'l', 'e'] {
        opt_text(src.konsole)
    } else {
        None
    }
}

/// The font in use: that of the terminal's own settings, else the first found
/// in the order kitty, Alacritty, foot, Ghostty, Konsole, GNOME Terminal, else
/// `unknown`.
pub open spec fn chosen_font(term: Seq<char>, src: FontSources) -> Seq<char> {
    match preferred_font(term, src) {
        Some(f) => f,
        None => match (src.kitty, src.alacritty, src.foot, src.ghostty, src.konsole, src.gnome_terminal) {
            (Some(f), _, _, _, _, _) => f@,
            (None, Some(f), _, _, _, _) => f@,
            (None, None, Some(f), _, _, _) => f@,
            (None, None, None, Some(f), _, _) => f@,
            (None, None, None, None, Some(f), _) => f@,
            (None, None, None, None, None, Some(f)) => f@,
            _ => seq!['u', 'n', 'k', 'n', 'o', 'w', 'n'],
        },
    }
}

/// The lower-case form that `str::to_lowercase` gives.
pub uninterp spec fn lower_of(s: Seq<char>) -> Seq<char>;

/// Relies on `str::to_lowercase`: the lower-case form of `s`, which depends on
/// its characters alone.
#[verifier::external_body]
pub(crate) fn lowercase(s: &str) -> (r: String)
    ensures
        r@ == lower_of(s@),
{
    s.to_lowercase()
}

fn opt_clone(o: &Option<String>) -> (r: Option<String>)
    ensures
        opt_text(r) == opt_text(*o),
{
    match o {
        Some(s) => Some(s.clone()),
        None => None,
    }
}

/// The font in use for the terminal whose lower-case name is `term`.
pub fn font_for_terminal(term: &str, sources: &FontSources) -> (r: String)
    ensures
        r@ == chosen_font(term@, *sources),
{
    proof {
        reveal_strlit("alacritty");
        reveal_strlit("kitty");
        reveal_strlit("foot");
        reveal_strlit("ghostty");
        reveal_strlit("gnome terminal");
        reveal_strlit("konsole");
        reveal_strlit("unknown");
        assert("alacritty"@ =~= seq!['a', 'l', 'a', 'c', 'r', 'i', 't', 't', 'y']);
        assert("kitty"@ =~= seq!['k', 'i', 't', 't', 'y']);
        assert("foot"@ =~= seq!['f', 'o', 'o', 't']);
        assert("ghostty"@ =~= seq!['g', 'h', 'o', 's', 't', 't', 'y']);
        assert("gnome terminal"@ =~= seq![
            'g', 'n', 'o', 'm', 'e', ' ', 't', 'e', 'r', 'm', 'i', 'n', 'a', 'l',
        ]);
        assert("konsole"@ =~= seq!['k', 'o', 'n', 's', 'o', 'l', 'e']);
        assert("unknown"@ =~= seq!['u', 'n', 'k', 'n', 'o', 'w', 'n']);
    }
    let preferred = if same_text(term, "alacritty") {
        opt_clone(&sources.alacritty)
    } else if same_text(term, "kitty") {
        opt_clone(&sources.kitty)
    } else if same_text(term, "foot") {
        opt_clone(&sources.foot)
    } else if same_text(term, "ghostty") {
        opt_clone(&sources.ghostty)
    } else if same_text(term, "gnome terminal") {
        opt_clone(&sources.gnome_terminal)
    } else if same_text(term, "konsole") {
        opt_clone(&sources.konsole)
    } else {
        None
    };
    if let Some(font) = preferred {
        return font;
    }
    if let Some(font) = &sources.kitty {
        return font.clone();
    }
    if let Some(font) = &sources.alacritty {
        return font.clone();
    }
    if let Some(font) = &sources.foot {
        return font.clone();
    }
    if let Some(font) = &sources.ghostty {
        return font.clone();
    }
    if let Some(font) = &sources.konsole {
        return font.clone();
    }
    if let Some(font) = &sources.gnome_terminal {
        return font.clone();
    }
    "unknown".to_string()
}

/// The font in use for the terminal named `terminal`, its name compared
/// without regard to case.
pub fn find_font(terminal: &str, sources: &FontSources) -> (r: String)
    ensures
        r@ == chosen_font(lower_of(terminal@), *sources),
{
    let term = lowercase(terminal);
    font_for_terminal(term.as_str(), sources)
}


/// `v` without double quotes, then without apostrophes, at either end.
pub open spec fn unquote(v: Seq<char>) -> Seq<char> {
    trim_char(trim_char(v, '"'), '\'')
}

fn unquote_chars(v: &Vec<char>) -> (r: String)
    ensures
        r@ == unquote(trim(v@)),
{
    let t = strip_both(v.as_slice(), true, ' ');
    let q = strip_both(t.as_slice(), false, '"');
    let a = strip_both(q.as_slice(), false, '\'');
    string_of(a.as_slice())
}

/// The font family of an Alacritty TOML file: the value of the first
/// `family = ...` line inside a `[font]` or `[font.normal]` table, unquoted.
pub open spec fn toml_family(lines: Seq<Seq<char>>, in_font: bool) -> Option<Seq<char>>
    decreases lines.len(),
{
    if lines.len() == 0 {
        None
    } else {
        let t = trim(lines[0]);
        let rest = lines.drop_first();
        if t == "[font.normal]"@ || t == "[font]"@ {
            toml_family(rest, true)
        } else {
            let inside = if t.len() > 0 && t[0] == '[' {
                false
            } else {
                in_font
            };
            if inside && begins(t, "family"@) && field_after(t, '=') is Some {
                Some(unquote(trim(field_after(t, '=')->0)))
            } else {
                toml_family(rest, inside)
            }
        }
    }
}

/// Reads the font family from an Alacritty TOML settings file.
pub fn parse_alacritty_toml(content: &str) -> (r: Option<String>)
    ensures
        opt_text(r) == toml_family(text_lines(content@), false),
{
    proof {
        reveal_strlit("[font.normal]");
        reveal_strlit("[font]");
        reveal_strlit("family");
    }
    let lines = lines_of(content);
    let ghost all = text_lines(content@);
    let n = lines.len();
    let mut in_font = false;
    let mut i: usize = 0;
    assert(all.subrange(0, n as int) =~= all);
    while i < n
        invariant
            i <= n,
            n == lines@.len(),
            n == all.len(),
            all == text_lines(content@),
            forall|k: int| 0 <= k < n ==> #[trigger] lines@[k]@ == all[k],
            toml_family(all, false) == toml_family(all.subrange(i as int, n as int), in_font),
        decreases n - i,
    {
        proof {
            assert(all.subrange(i as int, n as int).drop_first() =~= all.subrange(i + 1, n as int));
            assert(all.subrange(i as int, n as int)[0] == lines@[i as int]@);
        }
        let ghost old_in = in_font;
        let ghost sub = all.subrange(i as int, n as int);
        let t = strip_both(lines[i].as_slice(), true, ' ');
        assert(t@ == trim(sub[0]));
        if equals(t.as_slice(), "[font.normal]") || equals(t.as_slice(), "[font]") {
            in_font = true;
        } else {
            if t.len() > 0 && t[0] == '[' {
                in_font = false;
            }
            if in_font && starts_with(t.as_slice(), "family") {
                if let Some(v) = field_at(t.as_slice(), '=') {
                    let r = unquote_chars(&v);
                    proof {
                        assert(!(t@ == "[font.normal]"@ || t@ == "[font]"@));
                        assert(toml_family(sub, old_in) == Some(unquote(trim(v@))));
                    }
                    return Some(r);
                }
            }
        }
        i = i + 1;
    }
    None
}

/// The font family of an Alacritty YAML file: the value of the first line
/// holding `family:` after a line holding `normal:`, both inside the indented
/// block of a line starting `font:`; comment lines are passed over.
pub open spec fn yaml_family(lines: Seq<Seq<char>>, in_font: bool, in_normal: bool) -> Option<Seq<char>>
    decreases lines.len(),
{
    if lines.len() == 0 {
        None
    } else {
        let l = lines[0];
        let rest = lines.drop_first();
        let ts = strip_start(l, true, ' ');
        if ts.len() > 0 && ts[0] == '#' {
            yaml_family(rest, in_font, in_normal)
        } else if begins(l, "font:"@) {
            yaml_family(rest, true, in_normal)
        } else {
            let reset = in_font && l.len() > 0 && l[0] != ' ';
            let f = if reset {
                false
            } else {
                in_font
            };
            let nrm = if reset {
                false
            } else {
                in_normal
            };
            if f && has_sub(l, "normal:"@) {
                yaml_family(rest, f, true)
            } else if f && nrm && has_sub(l, "family:"@) {
                match field_after(l, ':') {
                    Some(v) => Some(unquote(trim(v))),
                    None => None,
                }
            } else {
                yaml_family(rest, f, nrm)
            }
        }
    }
}

/// Reads the font family from an Alacritty YAML settings file.
pub fn parse_alacritty_yaml(content: &str) -> (r: Option<String>)
    ensures
        opt_text(r) == yaml_family(text_lines(content@), false, false),
{
    proof {
        reveal_strlit("font:");
        reveal_strlit("normal:");
        reveal_strlit("family:");
    }
    let lines = lines_of(content);
    let ghost all = text_lines(content@);
    let n = lines.len();
    let mut in_font = false;
    let mut in_normal = false;
    let mut i: usize = 0;
    assert(all.subrange(0, n as int) =~= all);
    while i < n
        invariant
            i <= n,
            n == lines@.len(),
            n == all.len(),
            all == text_lines(content@),
            forall|k: int| 0 <= k < n ==> #[trigger] lines@[k]@ == all[k],
            yaml_family(all, false, false) == yaml_family(
                all.subrange(i as int, n as int),
                in_font,
                in_normal,
            ),
        decreases n - i,
    {
        proof {
            assert(all.subrange(i as int, n as int).drop_first() =~= all.subrange(i + 1, n as int));
            assert(all.subrange(i as int, n as int)[0] == lines@[i as int]@);
        }
        let ghost old_font = in_font;
        let ghost old_normal = in_normal;
        let ghost sub = all.subrange(i as int, n as int);
        let line = &lines[i];
        assert(line@ == sub[0]);
        let ts = strip_start_ws(line);
        if ts.len() > 0 && ts[0] == '#' {
        } else if starts_with(line.as_slice(), "font:") {
            in_font = true;
        } else {
            if in_font && line.len() > 0 && line[0] != ' ' {
                in_font = false;
                in_normal = false;
            }
            if in_font && contains_chars(line, "normal:") {
                in_normal = true;
            } else if in_font && in_normal && contains_chars(line, "family:") {
                let r = match field_at(line.as_slice(), ':') {
                    Some(v) => Some(unquote_chars(&v)),
                    None => None,
                };
                proof {
                    assert(opt_text(r) == yaml_family(sub, old_font, old_normal));
                }
                return r;
            }
        }
        i = i + 1;
    }
    None
}

/// `s` without leading white space.
fn strip_start_ws(s: &Vec<char>) -> (r: Vec<char>)
    ensures
        r@ == strip_start(s@, true, ' '),
{
    let n = s.len();
    let mut lo: usize = 0;
    assert(s@.subrange(0, n as int) =~= s@);
    while lo < n && crate::helpers::is_space(s[lo])
        invariant
            lo <= n,
            n == s@.len(),
            strip_start(s@, true, ' ') == strip_start(s@.subrange(lo as int, n as int), true, ' '),
        decreases n - lo,
    {
        proof {
            assert(s@.subrange(lo as int, n as int).drop_first() =~= s@.subrange(lo + 1, n as int));
        }
        lo = lo + 1;
    }
    crate::helpers::slice_chars(s.as_slice(), lo, n)
}


/// Style words that end a font name without naming its family.
pub open spec fn style_suffixes() -> Seq<Seq<char>> {
    seq![
        " Regular"@,
        " Medium"@,
        " Bold"@,
        " Italic"@,
        " Light"@,
        " Thin"@,
        " SemiBold"@,
        " ExtraBold"@,
        " Black"@,
    ]
}

pub open spec fn ends_with(s: Seq<char>, p: Seq<char>) -> bool {
    p.len() <= s.len() && s.subrange(s.len() - p.len(), s.len() as int) == p
}

/// `font` without the first suffix of `suffixes` that ends it, if any.
pub open spec fn without_style(font: Seq<char>, suffixes: Seq<Seq<char>>) -> Seq<char>
    decreases suffixes.len(),
{
    if suffixes.len() == 0 {
        font
    } else if ends_with(font, suffixes[0]) {
        font.subrange(0, font.len() - suffixes[0].len())
    } else {
        without_style(font, suffixes.drop_first())
    }
}

fn ends_with_str(s: &Vec<char>, suffix: &str) -> (r: bool)
    ensures
        r == ends_with(s@, suffix@),
{
    let p = crate::helpers::chars_of(suffix);
    let n = s.len();
    let m = p.len();
    if m > n {
        return false;
    }
    let mut j: usize = 0;
    while j < m
        invariant
            j <= m,
            m <= n,
            n == s@.len(),
            m == p@.len(),
            p@ == suffix@,
            forall|k: int| 0 <= k < j ==> s@[n - m + k] == p@[k],
        decreases m - j,
    {
        if s[n - m + j] != p[j] {
            assert(s@.subrange(n - m, n as int)[j as int] != suffix@[j as int]);
            return false;
        }
        j = j + 1;
    }
    assert(s@.subrange(n - m, n as int) =~= suffix@);
    true
}

/// `font` without a trailing style word such as ` Bold` or ` Regular`; only
/// the first of the list that ends it is removed.
pub fn strip_style_suffix(font: &str) -> (r: String)
    ensures
        r@ == without_style(font@, style_suffixes()),
{
    let cs = crate::helpers::chars_of(font);
    let suffixes = [
        " Regular",
        " Medium",
        " Bold",
        " Italic",
        " Light",
        " Thin",
        " SemiBold",
        " ExtraBold",
        " Black",
    ];
    proof {
        reveal_strlit(" Regular");
        reveal_strlit(" Medium");
        reveal_strlit(" Bold");
        reveal_strlit(" Italic");
        reveal_strlit(" Light");
        reveal_strlit(" Thin");
        reveal_strlit(" SemiBold");
        reveal_strlit(" ExtraBold");
        reveal_strlit(" Black");
    }
    let ghost all = style_suffixes();
    assert(forall|k: int| 0 <= k < 9 ==> #[trigger] suffixes@[k]@ == all[k]);
    assert(all.subrange(0, 9) =~= all);
    let mut i: usize = 0;
    while i < 9
        invariant
            i <= 9,
            cs@ == font@,
            all == style_suffixes(),
            all.len() == 9,
            suffixes@.len() == 9,
            forall|k: int| 0 <= k < 9 ==> #[trigger] suffixes@[k]@ == all[k],
            without_style(font@, all) == without_style(font@, all.subrange(i as int, 9)),
        decreases 9 - i,
    {
        proof {
            assert(all.subrange(i as int, 9).drop_first() =~= all.subrange(i + 1, 9));
            assert(all.subrange(i as int, 9)[0] == all[i as int]);
        }
        if ends_with_str(&cs, suffixes[i]) {
            let m = crate::helpers::chars_of(suffixes[i]).len();
            return crate::helpers::string_of(
                crate::helpers::slice_chars(cs.as_slice(), 0, cs.len() - m).as_slice(),
            );
        }
        i = i + 1;
    }
    assert(all.subrange(9, 9) =~= Seq::<Seq<char>>::empty());
    string_of(cs.as_slice())
}


/// The text of `s` before its first `ch`, all of it without one.
pub open spec fn before_char(s: Seq<char>, ch: char) -> Seq<char> {
    match crate::helpers::first_index(s, ch) {
        Some(i) => s.subrange(0, i as int),
        None => s,
    }
}

pub(crate) fn before_char_exec(s: &Vec<char>, ch: char) -> (r: Vec<char>)
    ensures
        r@ == before_char(s@, ch),
{
    match crate::helpers::find_char(s.as_slice(), ch) {
        Some(i) => {
            proof {
                assert(crate::helpers::first_index(s@, ch) == Some(i as nat)) by {
                    assert(s@[i as int] == ch);
                }
            }
            crate::helpers::slice_chars(s.as_slice(), 0, i)
        },
        None => {
            assert(s@.subrange(0, s@.len() as int) =~= s@);
            crate::helpers::slice_chars(s.as_slice(), 0, s.len())
        },
    }
}

/// `s` with every leading repetition of `p` removed.
fn strip_prefix_repeated(s: &Vec<char>, p: &str) -> (r: Vec<char>)
    requires
        p@.len() > 0,
    ensures
        r@ == strip_repeated(s@, p@),
{
    let key = crate::helpers::chars_of(p);
    let m = key.len();
    let n = s.len();
    let mut lo: usize = 0;
    assert(s@.subrange(0, n as int) =~= s@);
    while m <= n - lo && prefix_at(s, &key, lo)
        invariant
            lo <= n,
            n == s@.len(),
            m == key@.len(),
            m > 0,
            key@ == p@,
            strip_repeated(s@, p@) == strip_repeated(s@.subrange(lo as int, n as int), p@),
        decreases n - lo,
    {
        proof {
            let rest = s@.subrange(lo as int, n as int);
            assert(rest.subrange(0, m as int) =~= s@.subrange(lo as int, lo + m));
            assert(rest.subrange(m as int, rest.len() as int) =~= s@.subrange(lo + m, n as int));
        }
        lo = lo + m;
    }
    proof {
        let rest = s@.subrange(lo as int, n as int);
        if m <= rest.len() {
            assert(rest.subrange(0, m as int) =~= s@.subrange(lo as int, lo + m));
        }
    }
    crate::helpers::slice_chars(s.as_slice(), lo, n)
}

fn prefix_at(s: &Vec<char>, key: &Vec<char>, lo: usize) -> (r: bool)
    requires
        lo + key@.len() <= s@.len(),
    ensures
        r == (s@.subrange(lo as int, lo + key@.len()) == key@),
{
    let m = key.len();
    let n = s.len();
    let mut j: usize = 0;
    while j < m
        invariant
            j <= m,
            m == key@.len(),
            n == s@.len(),
            lo + m <= n,
            forall|k: int| 0 <= k < j ==> s@[lo + k] == key@[k],
        decreases m - j,
    {
        if s[lo + j] != key[j] {
            assert(s@.subrange(lo as int, lo + m)[j as int] != key@[j as int]);
            return false;
        }
        j = j + 1;
    }
    assert(s@.subrange(lo as int, lo + m) =~= key@);
    true
}

/// Which terminal's settings a font line is read from.
#[derive(Clone, Copy, Debug, PartialEq, Eq, Structural)]
pub enum FontConfig {
    /// kitty: `font_family JetBrains Mono`
    Kitty,
    /// foot: `font=JetBrains Mono:size=12`
    Foot,
    /// Ghostty: `font-family = JetBrains Mono`
    Ghostty,
    /// Konsole: `Font=JetBrains Mono,12,-1,5,50,0,0,0,0,0`
    Konsole,
    /// GNOME Terminal's profiles as `dconf dump` prints them: `font='JetBrains Mono 12'`
    GnomeTerminal,
}

/// The text of `s` before its last space, all of it without one, as
/// `rsplit_once(' ')` gives the name of a `Name Size` font.
pub open spec fn before_last_space(s: Seq<char>) -> Seq<char> {
    if exists|i: int| 0 <= i < s.len() && s[i] == ' ' {
        s.subrange(0, choose|i: int| 0 <= i < s.len() && s[i] == ' ' && forall|k: int| i < k < s.len() ==> s[k] != ' ')
    } else {
        s
    }
}

/// The font name in a GNOME font setting `'Name Size'`, if one remains.
pub open spec fn gnome_font_name(value: Seq<char>) -> Option<Seq<char>> {
    let f = before_last_space(trim_char(value, '\''));
    if f.len() > 0 {
        Some(f)
    } else {
        None
    }
}

/// The font that one line gives in the settings of `kind`, if the line sets one.
pub open spec fn font_in_line(kind: FontConfig, line: Seq<char>) -> Option<Seq<char>> {
    let t = trim(line);
    match kind {
        FontConfig::Kitty => if begins(t, "font_family"@) && trim(strip_repeated(t, "font_family"@)).len() > 0 {
            Some(trim(strip_repeated(t, "font_family"@)))
        } else {
            None
        },
        FontConfig::Foot => if begins(t, "font="@) {
            Some(before_char(strip_repeated(t, "font="@), ':'))
        } else {
            None
        },
        FontConfig::Ghostty => {
            let f = trim(strip_start(trim(strip_repeated(t, "font-family"@)), false, '='));
            if begins(t, "font-family"@) && f.len() > 0 {
                Some(f)
            } else {
                None
            }
        },
        FontConfig::Konsole => if begins(line, "Font="@) {
            Some(before_char(strip_repeated(line, "Font="@), ','))
        } else {
            None
        },
        FontConfig::GnomeTerminal => if begins(t, "font="@) {
            gnome_font_name(strip_repeated(t, "font="@))
        } else {
            None
        },
    }
}

/// The font of the first line of `lines` that sets one.
pub open spec fn first_font(kind: FontConfig, lines: Seq<Seq<char>>) -> Option<Seq<char>>
    decreases lines.len(),
{
    if lines.len() == 0 {
        None
    } else if font_in_line(kind, lines[0]) is Some {
        font_in_line(kind, lines[0])
    } else {
        first_font(kind, lines.drop_first())
    }
}

fn line_font(kind: FontConfig, line: &Vec<char>) -> (r: Option<Vec<char>>)
    ensures
        match r {
            Some(f) => font_in_line(kind, line@) == Some(f@),
            None => font_in_line(kind, line@) is None,
        },
{
    proof {
        reveal_strlit("font_family");
        reveal_strlit("font=");
        reveal_strlit("font-family");
        reveal_strlit("Font=");
    }
    let t = strip_both(line.as_slice(), true, ' ');
    match kind {
        FontConfig::Kitty => {
            if starts_with(t.as_slice(), "font_family") {
                let rest = strip_prefix_repeated(&t, "font_family");
                let f = strip_both(rest.as_slice(), true, ' ');
                if f.len() > 0 {
                    return Some(f);
                }
            }
            None
        },
        FontConfig::Foot => {
            if starts_with(t.as_slice(), "font=") {
                let rest = strip_prefix_repeated(&t, "font=");
                return Some(before_char_exec(&rest, ':'));
            }
            None
        },
        FontConfig::Ghostty => {
            let rest = strip_prefix_repeated(&t, "font-family");
            let a = strip_both(rest.as_slice(), true, ' ');
            let b = crate::helpers::strip_leading(&a, '=');
            let f = strip_both(b.as_slice(), true, ' ');
            if starts_with(t.as_slice(), "font-family") && f.len() > 0 {
                return Some(f);
            }
            None
        },
        FontConfig::Konsole => {
            if starts_with(line.as_slice(), "Font=") {
                let rest = strip_prefix_repeated(line, "Font=");
                return Some(before_char_exec(&rest, ','));
            }
            None
        },
        FontConfig::GnomeTerminal => {
            if starts_with(t.as_slice(), "font=") {
                let rest = strip_prefix_repeated(&t, "font=");
                return gnome_name_exec(&rest);
            }
            None
        },
    }
}

fn gnome_name_exec(value: &Vec<char>) -> (r: Option<Vec<char>>)
    ensures
        match r {
            Some(f) => gnome_font_name(value@) == Some(f@),
            None => gnome_font_name(value@) is None,
        },
{
    let q = strip_both(value.as_slice(), false, '\'');
    let n = q.len();
    let mut i: usize = n;
    while i > 0 && q[i - 1] != ' '
        invariant
            i <= n,
            n == q@.len(),
            forall|k: int| i <= k < n ==> q@[k] != ' ',
        decreases i,
    {
        i = i - 1;
    }
    let f = if i > 0 {
        proof {
            let j = (i - 1) as int;
            assert(q@[j] == ' ');
            let c = choose|c: int| 0 <= c < q@.len() && q@[c] == ' ' && forall|k: int| c < k < q@.len() ==> q@[k] != ' ';
            assert(c == j) by {
                if c < j {
                    assert(q@[j] != ' ');
                } else if c > j {
                    assert(q@[c] != ' ');
                }
            }
        }
        crate::helpers::slice_chars(q.as_slice(), 0, i - 1)
    } else {
        assert(q@.subrange(0, n as int) =~= q@);
        crate::helpers::slice_chars(q.as_slice(), 0, n)
    };
    if f.len() > 0 {
        Some(f)
    } else {
        None
    }
}

/// The font name that `gsettings get org.gnome.desktop.interface
/// monospace-font-name` prints: `'Name Size'`, trimmed.
pub fn gnome_font_from_setting(output: &str) -> (r: Option<String>)
    ensures
        opt_text(r) == gnome_font_name(trim(output@)),
{
    let cs = crate::helpers::chars_of(output);
    let t = strip_both(cs.as_slice(), true, ' ');
    match gnome_name_exec(&t) {
        Some(f) => Some(string_of(f.as_slice())),
        None => None,
    }
}

/// Reads the font from a terminal's settings file of the given kind: that of
/// the first line that sets one, before any cleaning of its name.
pub fn font_from_config(kind: FontConfig, content: &str) -> (r: Option<String>)
    ensures
        opt_text(r) == first_font(kind, text_lines(content@)),
{
    let lines = lines_of(content);
    let ghost all = text_lines(content@);
    let n = lines.len();
    let mut i: usize = 0;
    assert(all.subrange(0, n as int) =~= all);
    while i < n
        invariant
            i <= n,
            n == lines@.len(),
            n == all.len(),
            all == text_lines(content@),
            forall|k: int| 0 <= k < n ==> #[trigger] lines@[k]@ == all[k],
            first_font(kind, all) == first_font(kind, all.subrange(i as int, n as int)),
        decreases n - i,
    {
        proof {
            assert(all.subrange(i as int, n as int).drop_first() =~= all.subrange(i + 1, n as int));
            assert(all.subrange(i as int, n as int)[0] == lines@[i as int]@);
        }
        if let Some(f) = line_font(kind, &lines[i]) {
            return Some(string_of(f.as_slice()));
        }
        i = i + 1;
    }
    None
}

} // verus!
