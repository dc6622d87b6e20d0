//! The terminal's display name, from what its environment tells.
use crate::fontmodule::opt_text;
use crate::helpers::{capitalize, capitalized, chars_of, matches_at, occurs_at, slice_chars, string_of};
use vstd::prelude::*;

verus! {

/// `s` up to the first occurrence of `pat`, all of it without one, as
/// `split(pat).next()` gives it.
pub open spec fn before_sub(s: Seq<char>, pat: Seq<char>) -> Seq<char> {
    if exists|i: int| occurs_at(s, pat, i) {
        s.subrange(0, choose|i: int| occurs_at(s, pat, i) && forall|k: int| 0 <= k < i ==> !occurs_at(s, pat, k))
    } else {
        s
    }
}

/// `s` up to the first occurrence of `pat`.
fn before_sub_exec(s: &Vec<char>, pat: &str) -> (r: Vec<char>)
    requires
        pat@.len() > 0,
    ensures
        r@ == before_sub(s@, pat@),
{
    let p = chars_of(pat);
    let n = s.len();
    let m = p.len();
    if m > n {
        assert forall|k: int| !occurs_at(s@, pat@, k) by {}
        assert(s@.subrange(0, n as int) =~= s@);
        return slice_chars(s.as_slice(), 0, n);
    }
    let mut i: usize = 0;
    while i <= n - m
        invariant
            m <= n,
            n == s@.len(),
            m == p@.len(),
            p@ == pat@,
            m > 0,
            forall|k: int| 0 <= k < i ==> !occurs_at(s@, pat@, k),
        decreases n - m + 1 - i,
    {
        if matches_at(s, &p, i) {
            proof {
                let c = choose|c: int| occurs_at(s@, pat@, c) && forall|k: int| 0 <= k < c ==> !occurs_at(s@, pat@, k);
                assert(occurs_at(s@, pat@, i as int));
                assert(c == i) by {
                    if c > i {
                        assert(!occurs_at(s@, pat@, i as int));
                    }
                }
            }
            return slice_chars(s.as_slice(), 0, i);
        }
        i = i + 1;
    }
    assert forall|k: int| !occurs_at(s@, pat@, k) by {
        if k > n - m {
            assert(!(k + pat@.len() <= s@.len()));
        }
    }
    assert(s@.subrange(0, n as int) =~= s@);
    slice_chars(s.as_slice(), 0, n)
}

/// The terminal's display name: kitty, Konsole or GNOME Terminal where its own
/// variable is set; else `TERM_PROGRAM`, else `TERM`, else `unknown`, cut
/// before `-256color` and then before `-color`, capitalised.
pub open spec fn terminal_display(
    kitty_pid_set: bool,
    konsole_version_set: bool,
    gnome_terminal_screen_set: bool,
    term_program: Option<Seq<char>>,
    term: Option<Seq<char>>,
) -> Seq<char> {
    if kitty_pid_set {
        "Kitty"@
    } else if konsole_version_set {
        "Konsole"@
    } else if gnome_terminal_screen_set {
        "Gnome Terminal"@
    } else {
        let t = match term_program {
            Some(p) => p,
            None => match term {
                Some(t) => t,
                None => "unknown"@,
            },
        };
        capitalized(before_sub(before_sub(t, "-256color"@), "-color"@))
    }
}

/// The terminal's display name from its environment: whether `KITTY_PID`,
/// `KONSOLE_VERSION` and `GNOME_TERMINAL_SCREEN` are set, and the values of
/// `TERM_PROGRAM` and `TERM`.
pub fn terminal(
    kitty_pid_set: bool,
    konsole_version_set: bool,
    gnome_terminal_screen_set: bool,
    term_program: Option<&str>,
    term: Option<&str>,
) -> (r: String)
    ensures
        r@ == terminal_display(
            kitty_pid_set,
            konsole_version_set,
            gnome_terminal_screen_set,
            match term_program {
                Some(p) => Some(p@),
                None => None,
            },
            match term {
                Some(t) => Some(t@),
                None => None,
            },
        ),
{
    proof {
        reveal_strlit("-256color");
        reveal_strlit("-color");
        reveal_strlit("unknown");
    }
    if kitty_pid_set {
        return "Kitty".to_string();
    }
    if konsole_version_set {
        return "Konsole".to_string();
    }
    if gnome_terminal_screen_set {
        return "Gnome Terminal".to_string();
    }
    let name = match term_program {
        Some(p) => chars_of(p),
        None => match term {
            Some(t) => chars_of(t),
            None => chars_of("unknown"),
        },
    };
    let cut = before_sub_exec(&name, "-256color");
    let cut = before_sub_exec(&cut, "-color");
    capitalize(string_of(cut.as_slice()).as_str())
}


/// The last piece of a path: the text after its last `/`, all of it without one.
pub open spec fn last_component(path: Seq<char>) -> Seq<char> {
    if exists|i: int| 0 <= i < path.len() && path[i] == '/' {
        path.subrange(
            (choose|i: int| 0 <= i < path.len() && path[i] == '/' && forall|k: int| i < k < path.len() ==> path[k] != '/') + 1,
            path.len() as int,
        )
    } else {
        path
    }
}

/// The editor that a path names, capitalised; none for nano or no path.
pub open spec fn editor_name(path: Option<Seq<char>>) -> Option<Seq<char>> {
    match path {
        Some(p) => if last_component(p) == "nano"@ {
            None
        } else {
            Some(capitalized(last_component(p)))
        },
        None => None,
    }
}

/// The editor line: the visual and the plain editor with their icons where
/// both are set and differ, else the one that is set, else nothing.
pub open spec fn editor_line(visual: Option<Seq<char>>, editor: Option<Seq<char>>) -> Seq<char> {
    match (editor_name(visual), editor_name(editor)) {
        (Some(v), Some(e)) => if v != e {
            seq!['\u{f0379}', ' '] + v + " |  "@ + e
        } else {
            v
        },
        (Some(v), None) => v,
        (None, Some(e)) => e,
        (None, None) => Seq::empty(),
    }
}

/// The text of `path` after its last `/`.
fn after_last_slash(path: &str) -> (r: Vec<char>)
    ensures
        r@ == last_component(path@),
{
    let cs = chars_of(path);
    let n = cs.len();
    let mut i: usize = n;
    while i > 0 && cs[i - 1] != '/'
        invariant
            i <= n,
            n == cs@.len(),
            forall|k: int| i <= k < n ==> cs@[k] != '/',
        decreases i,
    {
        i = i - 1;
    }
    proof {
        if i > 0 {
            let j = (i - 1) as int;
            assert(cs@[j] == '/');
            let c = choose|c: int| 0 <= c < cs@.len() && cs@[c] == '/' && forall|k: int| c < k < cs@.len() ==> cs@[k] != '/';
            assert(c == j) by {
                if c < j {
                    assert(cs@[j] != '/');
                } else if c > j {
                    assert(cs@[c] != '/');
                }
            }
        } else {
            assert(cs@.subrange(0, n as int) =~= cs@);
        }
    }
    slice_chars(cs.as_slice(), i, n)
}

fn editor_name_exec(path: Option<&str>) -> (r: Option<String>)
    ensures
        opt_text(r) == editor_name(match path {
            Some(p) => Some(p@),
            None => None,
        }),
{
    proof {
        reveal_strlit("nano");
    }
    let p = match path {
        Some(p) => p,
        None => return None,
    };
    let name = string_of(after_last_slash(p).as_slice());
    if crate::helpers::same_text(name.as_str(), "nano") {
        None
    } else {
        Some(capitalize(name.as_str()))
    }
}

/// The editor line from `VISUAL` and `EDITOR`: each named by the last piece of
/// its path, capitalised, nano left out.
pub fn editor(visual_path: Option<&str>, editor_path: Option<&str>) -> (r: String)
    ensures
        r@ == editor_line(
            match visual_path {
                Some(p) => Some(p@),
                None => None,
            },
            match editor_path {
                Some(p) => Some(p@),
                None => None,
            },
        ),
{
    proof {
        reveal_strlit(" |  ");
    }
    match (editor_name_exec(visual_path), editor_name_exec(editor_path)) {
        (Some(v), Some(e)) => {
            if crate::helpers::same_text(v.as_str(), e.as_str()) {
                v
            } else {
                let mut r = String::new();
                crate::helpers::push_char(&mut r, '\u{f0379}');
                crate::helpers::push_char(&mut r, ' ');
                r.append(v.as_str());
                r.append(" |  ");
                r.append(e.as_str());
                r
            }
        },
        (Some(v), None) => v,
        (None, Some(e)) => e,
        (None, None) => String::new(),
    }
}


/// Whether `w` starts with an ASCII digit.
pub open spec fn starts_with_digit(w: Seq<char>) -> bool {
    w.len() > 0 && '0' <= w[0] && w[0] <= '9'
}

/// The first of `ws` that starts with a digit.
pub open spec fn first_numeric(ws: Seq<Seq<char>>) -> Option<Seq<char>>
    decreases ws.len(),
{
    if ws.len() == 0 {
        None
    } else if starts_with_digit(ws[0]) {
        Some(ws[0])
    } else {
        first_numeric(ws.drop_first())
    }
}

/// `v` up to its first `(` or `-`.
pub open spec fn before_paren_or_dash(v: Seq<char>) -> Seq<char> {
    if exists|i: int| 0 <= i < v.len() && (v[i] == '(' || v[i] == '-') {
        v.subrange(0, choose|i: int| 0 <= i < v.len() && (v[i] == '(' || v[i] == '-') && forall|k: int| 0 <= k < i ==> !(v[k] == '(' || v[k] == '-'))
    } else {
        v
    }
}

/// The version in the first line that `<shell> --version` prints: its first
/// word (between ASCII white space) that starts with a digit, up to a `(` or
/// `-`, as `5.2.26` in `GNU bash, version 5.2.26(1)-release`.
pub open spec fn shell_version(line: Seq<char>) -> Option<Seq<char>> {
    match first_numeric(crate::hardwaremodules::words_by(line, true)) {
        Some(v) => Some(before_paren_or_dash(v)),
        None => None,
    }
}

/// The shell line: the capitalised last piece of the shell's path, with the
/// version where one is found; `unknown` without a path or with an empty name.
pub open spec fn shell_line(path: Option<Seq<char>>, version_line: Option<Seq<char>>) -> Seq<char> {
    match path {
        None => "unknown"@,
        Some(p) => {
            let name = last_component(p);
            if name.len() == 0 {
                "unknown"@
            } else {
                match version_line {
                    Some(l) => match shell_version(l) {
                        Some(v) => capitalized(name) + seq![' '] + v,
                        None => capitalized(name),
                    },
                    None => capitalized(name),
                }
            }
        },
    }
}

fn version_of(line: &str) -> (r: Option<Vec<char>>)
    ensures
        match r {
            Some(v) => shell_version(line@) == Some(v@),
            None => shell_version(line@) is None,
        },
{
    let cs = chars_of(line);
    let ws = crate::hardwaremodules::split_words(&cs, true);
    let ghost all = crate::hardwaremodules::words_by(line@, true);
    let n = ws.len();
    let mut i: usize = 0;
    assert(all.subrange(0, n as int) =~= all);
    while i < n
        invariant
            i <= n,
            n == ws@.len(),
            n == all.len(),
            all == crate::hardwaremodules::words_by(line@, true),
            forall|k: int| 0 <= k < n ==> #[trigger] ws@[k]@ == all[k],
            first_numeric(all) == first_numeric(all.subrange(i as int, n as int)),
        decreases n - i,
    {
        proof {
            assert(all.subrange(i as int, n as int).drop_first() =~= all.subrange(i + 1, n as int));
            assert(all.subrange(i as int, n as int)[0] == ws@[i as int]@);
        }
        let w = &ws[i];
        if w.len() > 0 && '0' <= w[0] && w[0] <= '9' {
            let m = w.len();
            let mut j: usize = 0;
            while j < m && w[j] != '(' && w[j] != '-'
                invariant
                    j <= m,
                    m == w@.len(),
                    forall|k: int| 0 <= k < j ==> !(w@[k] == '(' || w@[k] == '-'),
                decreases m - j,
            {
                j = j + 1;
            }
            proof {
                if j < m {
                    let c = choose|c: int| 0 <= c < w@.len() && (w@[c] == '(' || w@[c] == '-') && forall|k: int| 0 <= k < c ==> !(w@[k] == '(' || w@[k] == '-');
                    assert(w@[j as int] == '(' || w@[j as int] == '-');
                    assert(c == j) by {
                        if c > j {
                        } else if c < j {
                        }
                    }
                } else {
                    assert(w@.subrange(0, m as int) =~= w@);
                }
            }
            return Some(slice_chars(w.as_slice(), 0, j));
        }
        i = i + 1;
    }
    None
}

/// The shell line from the shell's path (`SHELL`) and the first line that
/// `<shell> --version` printed, where it ran.
pub fn shell(path: Option<&str>, version_line: Option<&str>) -> (r: String)
    ensures
        r@ == shell_line(
            match path {
                Some(p) => Some(p@),
                None => None,
            },
            match version_line {
                Some(l) => Some(l@),
                None => None,
            },
        ),
{
    proof {
        reveal_strlit("unknown");
    }
    let p = match path {
        Some(p) => p,
        None => return "unknown".to_string(),
    };
    let name = after_last_slash(p);
    if name.len() == 0 {
        return "unknown".to_string();
    }
    let mut line = capitalize(string_of(name.as_slice()).as_str());
    if let Some(l) = version_line {
        if let Some(v) = version_of(l) {
            crate::helpers::push_char(&mut line, ' ');
            line.append(string_of(v.as_slice()).as_str());
        }
    }
    line
}

} // verus!
