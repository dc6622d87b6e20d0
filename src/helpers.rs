//! Small text helpers.
use vstd::prelude::*;

verus! {

/// The characters of `s`, in order.
pub fn chars_of(s: &str) -> (r: Vec<char>)
    ensures
        r@ == s@,
{
    let mut r: Vec<char> = Vec::new();
    for c in it: s.chars()
        invariant
            it.seq() == s@,
            r@ == it.seq().take(it.index() as int),
    {
        let ghost i = it.index() as int;
        r.push(c);
        assert(r@ =~= it.seq().take(i + 1));
    }
    assert(s@.take(s@.len() as int) =~= s@);
    r
}

/// Relies on `String::push`: the character is added at the end.
#[verifier::external_body]
pub(crate) fn push_char(s: &mut String, c: char)
    ensures
        final(s)@ == old(s)@.push(c),
{
    s.push(c)
}

/// The string holding `cs`.
pub fn string_of(cs: &[char]) -> (r: String)
    ensures
        r@ == cs@,
{
    let mut r = String::new();
    let n = cs.len();
    let mut i: usize = 0;
    while i < n
        invariant
            i <= n,
            n == cs@.len(),
            r@ == cs@.take(i as int),
        decreases n - i,
    {
        push_char(&mut r, cs[i]);
        i = i + 1;
        assert(r@ =~= cs@.take(i as int));
    }
    assert(cs@.take(n as int) =~= cs@);
    r
}

/// `pat` occurs in `s` at position `i`.
pub open spec fn occurs_at(s: Seq<char>, pat: Seq<char>, i: int) -> bool {
    0 <= i && i + pat.len() <= s.len() && s.subrange(i, i + pat.len()) == pat
}

/// `pat` occurs somewhere in `s`.
pub open spec fn has_sub(s: Seq<char>, pat: Seq<char>) -> bool {
    exists|i: int| occurs_at(s, pat, i)
}

/// Whether `pat` occurs at position `i` of `s`.
pub(crate) fn matches_at(s: &Vec<char>, pat: &Vec<char>, i: usize) -> (r: bool)
    requires
        i + pat@.len() <= s@.len(),
    ensures
        r == occurs_at(s@, pat@, i as int),
{
    let m = pat.len();
    let n = s.len();
    let mut j: usize = 0;
    while j < m
        invariant
            j <= m,
            m == pat@.len(),
            n == s@.len(),
            i + m <= n,
            forall|k: int| 0 <= k < j ==> s@[i + k] == pat@[k],
        decreases m - j,
    {
        if s[i + j] != pat[j] {
            assert(s@.subrange(i as int, i + m)[j as int] != pat@[j as int]);
            return false;
        }
        j = j + 1;
    }
    assert(s@.subrange(i as int, i + m) =~= pat@);
    true
}

/// Whether `pat` occurs in `s`.
pub fn contains_str(s: &str, pat: &str) -> (r: bool)
    ensures
        r == has_sub(s@, pat@),
{
    let cs = chars_of(s);
    contains_chars(&cs, pat)
}

/// Whether `pat` occurs in the characters `cs`.
pub fn contains_chars(cs: &Vec<char>, pat: &str) -> (r: bool)
    ensures
        r == has_sub(cs@, pat@),
{
    let ps = chars_of(pat);
    let n = cs.len();
    if ps.len() > n {
        assert(!has_sub(cs@, pat@));
        return false;
    }
    if ps.len() == 0 {
        assert(occurs_at(cs@, pat@, 0)) by {
            assert(cs@.subrange(0, 0) =~= pat@);
        }
        return true;
    }
    let last = n - ps.len();
    let mut i: usize = 0;
    while i <= last
        invariant
            last + ps@.len() == cs@.len(),
            ps@.len() > 0,
            n == cs@.len(),
            ps@ == pat@,
            forall|k: int| 0 <= k < i ==> !occurs_at(cs@, pat@, k),
        decreases last + 1 - i,
    {
        if matches_at(cs, &ps, i) {
            return true;
        }
        i = i + 1;
    }
    assert forall|k: int| !occurs_at(cs@, pat@, k) by {
        if 0 <= k && k > last {
            assert(!(k + pat@.len() <= cs@.len()));
        }
    }
    false
}

/// What `char::to_uppercase` turns `c` into: one or more characters.
pub uninterp spec fn upper_of(c: char) -> Seq<char>;

/// Relies on `char::to_uppercase`: the upper-case form of `c`, which depends
/// on `c` alone.
#[verifier::external_body]
fn uppercase_char(c: char) -> (r: String)
    ensures
        r@ == upper_of(c),
{
    c.to_uppercase().collect::<String>()
}

/// `s` with its first character in upper case.
pub open spec fn capitalized(s: Seq<char>) -> Seq<char> {
    if s.len() == 0 {
        s
    } else {
        upper_of(s[0]) + s.drop_first()
    }
}

/// `s` with its first character in upper case, the rest unchanged.
pub fn capitalize(s: &str) -> (r: String)
    ensures
        r@ == capitalized(s@),
{
    let cs = chars_of(s);
    if cs.len() == 0 {
        return String::new();
    }
    let mut r = uppercase_char(cs[0]);
    let n = cs.len();
    let mut i: usize = 1;
    while i < n
        invariant
            1 <= i <= n,
            n == cs@.len(),
            cs@ == s@,
            r@ == upper_of(s@[0]) + s@.subrange(1, i as int),
        decreases n - i,
    {
        push_char(&mut r, cs[i]);
        i = i + 1;
        assert(r@ =~= upper_of(s@[0]) + s@.subrange(1, i as int));
    }
    assert(s@.subrange(1, n as int) =~= s@.drop_first());
    r
}


/// Whether `a` and `b` hold the same text.
pub fn same_text(a: &str, b: &str) -> (r: bool)
    ensures
        r == (a@ == b@),
{
    let x = chars_of(a);
    let y = chars_of(b);
    assert(x@ == a@ && y@ == b@);
    if x.len() != y.len() {
        return false;
    }
    let n = x.len();
    let mut i: usize = 0;
    while i < n
        invariant
            i <= n,
            n == x@.len(),
            n == y@.len(),
            x@ == a@,
            y@ == b@,
            forall|k: int| 0 <= k < i ==> x@[k] == y@[k],
        decreases n - i,
    {
        if x[i] != y[i] {
            assert(x@[i as int] != y@[i as int]);
            assert(a@ != b@);
            return false;
        }
        i = i + 1;
    }
    assert(x@ =~= y@);
    true
}


/// Whether `c` is white space in Unicode's sense, as `char::is_whitespace` has it.
pub open spec fn is_ws(c: char) -> bool {
    ('\u{9}' <= c && c <= '\u{d}') || c == ' ' || c == '\u{85}' || c == '\u{a0}' || c
        == '\u{1680}' || ('\u{2000}' <= c && c <= '\u{200a}') || c == '\u{2028}' || c
        == '\u{2029}' || c == '\u{202f}' || c == '\u{205f}' || c == '\u{3000}'
}

/// Whether `c` is white space.
pub fn is_space(c: char) -> (r: bool)
    ensures
        r == is_ws(c),
{
    ('\u{9}' <= c && c <= '\u{d}') || c == ' ' || c == '\u{85}' || c == '\u{a0}' || c
        == '\u{1680}' || ('\u{2000}' <= c && c <= '\u{200a}') || c == '\u{2028}' || c
        == '\u{2029}' || c == '\u{202f}' || c == '\u{205f}' || c == '\u{3000}'
}

/// `s` without the leading characters that `strip` selects.
pub open spec fn strip_start(s: Seq<char>, ws: bool, ch: char) -> Seq<char>
    decreases s.len(),
{
    if s.len() > 0 && (if ws {
        is_ws(s[0])
    } else {
        s[0] == ch
    }) {
        strip_start(s.drop_first(), ws, ch)
    } else {
        s
    }
}

/// `s` without the trailing characters that `strip` selects.
pub open spec fn strip_end(s: Seq<char>, ws: bool, ch: char) -> Seq<char>
    decreases s.len(),
{
    if s.len() > 0 && (if ws {
        is_ws(s.last())
    } else {
        s.last() == ch
    }) {
        strip_end(s.drop_last(), ws, ch)
    } else {
        s
    }
}

/// `s` without leading and trailing white space, as `str::trim` gives it.
pub open spec fn trim(s: Seq<char>) -> Seq<char> {
    strip_start(strip_end(s, true, ' '), true, ' ')
}

/// `s` without leading and trailing `ch`, as `str::trim_matches` gives it.
pub open spec fn trim_char(s: Seq<char>, ch: char) -> Seq<char> {
    strip_start(strip_end(s, false, ch), false, ch)
}

fn selected(c: char, ws: bool, ch: char) -> (r: bool)
    ensures
        r == (if ws {
            is_ws(c)
        } else {
            c == ch
        }),
{
    if ws {
        is_space(c)
    } else {
        c == ch
    }
}

/// `s` without the leading and trailing characters selected: white space
/// where `ws`, else the character `ch`.
pub fn strip_both(s: &[char], ws: bool, ch: char) -> (r: Vec<char>)
    ensures
        r@ == strip_start(strip_end(s@, ws, ch), ws, ch),
{
    let n = s.len();
    let mut hi: usize = n;
    assert(s@.subrange(0, n as int) =~= s@);
    while hi > 0 && selected(s[hi - 1], ws, ch)
        invariant
            hi <= n,
            n == s@.len(),
            strip_end(s@, ws, ch) == strip_end(s@.subrange(0, hi as int), ws, ch),
        decreases hi,
    {
        proof {
            assert(s@.subrange(0, hi as int).drop_last() =~= s@.subrange(0, hi - 1));
        }
        hi = hi - 1;
    }
    let ghost e = s@.subrange(0, hi as int);
    assert(strip_end(s@, ws, ch) == e);
    let mut lo: usize = 0;
    assert(e.subrange(0, hi as int) =~= e);
    while lo < hi && selected(s[lo], ws, ch)
        invariant
            lo <= hi <= n,
            n == s@.len(),
            e == s@.subrange(0, hi as int),
            strip_start(e, ws, ch) == strip_start(e.subrange(lo as int, hi as int), ws, ch),
        decreases hi - lo,
    {
        proof {
            assert(e.subrange(lo as int, hi as int).drop_first() =~= e.subrange(lo + 1, hi as int));
        }
        lo = lo + 1;
    }
    let mut r: Vec<char> = Vec::new();
    let mut k: usize = lo;
    while k < hi
        invariant
            lo <= k <= hi <= n,
            n == s@.len(),
            r@ == s@.subrange(lo as int, k as int),
        decreases hi - k,
    {
        r.push(s[k]);
        k = k + 1;
        assert(r@ =~= s@.subrange(lo as int, k as int));
    }
    assert(e.subrange(lo as int, hi as int) =~= s@.subrange(lo as int, hi as int));
    r
}

/// Whether `s` begins with `prefix`.
pub fn starts_with(s: &[char], prefix: &str) -> (r: bool)
    ensures
        r == (prefix@.len() <= s@.len() && s@.subrange(0, prefix@.len() as int) == prefix@),
{
    let p = chars_of(prefix);
    let m = p.len();
    if m > s.len() {
        return false;
    }
    let mut j: usize = 0;
    while j < m
        invariant
            j <= m,
            m == p@.len(),
            m <= s@.len(),
            p@ == prefix@,
            forall|k: int| 0 <= k < j ==> s@[k] == p@[k],
        decreases m - j,
    {
        if s[j] != p[j] {
            assert(s@.subrange(0, m as int)[j as int] != prefix@[j as int]);
            return false;
        }
        j = j + 1;
    }
    assert(s@.subrange(0, m as int) =~= prefix@);
    true
}

/// Whether `s` holds exactly the text `t`.
pub fn equals(s: &[char], t: &str) -> (r: bool)
    ensures
        r == (s@ == t@),
{
    if !starts_with(s, t) {
        assert(s@ == t@ ==> s@.subrange(0, t@.len() as int) =~= t@);
        return false;
    }
    let p = chars_of(t);
    if p.len() != s.len() {
        return false;
    }
    assert(s@.subrange(0, s@.len() as int) =~= s@);
    true
}

/// Position of the first `ch` in `s`.
pub open spec fn first_index(s: Seq<char>, ch: char) -> Option<nat> {
    if exists|i: int| 0 <= i < s.len() && s[i] == ch {
        Some(choose|i: nat| i < s.len() && s[i as int] == ch && forall|k: int| 0 <= k < i ==> s[k] != ch)
    } else {
        None
    }
}

/// Position of the first `ch` in `s`, if any.
pub fn find_char(s: &[char], ch: char) -> (r: Option<usize>)
    ensures
        match r {
            Some(i) => i < s@.len() && s@[i as int] == ch && forall|k: int| 0 <= k < i ==> s@[k] != ch,
            None => forall|k: int| 0 <= k < s@.len() ==> s@[k] != ch,
        },
{
    let n = s.len();
    let mut i: usize = 0;
    while i < n
        invariant
            i <= n,
            n == s@.len(),
            forall|k: int| 0 <= k < i ==> s@[k] != ch,
        decreases n - i,
    {
        if s[i] == ch {
            return Some(i);
        }
        i = i + 1;
    }
    None
}

/// The characters of `s` from `lo` up to `hi`.
pub fn slice_chars(s: &[char], lo: usize, hi: usize) -> (r: Vec<char>)
    requires
        lo <= hi <= s@.len(),
    ensures
        r@ == s@.subrange(lo as int, hi as int),
{
    let mut r: Vec<char> = Vec::new();
    let mut k: usize = lo;
    while k < hi
        invariant
            lo <= k <= hi <= s@.len(),
            r@ == s@.subrange(lo as int, k as int),
        decreases hi - k,
    {
        r.push(s[k]);
        k = k + 1;
        assert(r@ =~= s@.subrange(lo as int, k as int));
    }
    r
}


/// The text between the first and the second `ch` of `t` (or its end), as
/// `split(ch).nth(1)` gives it; none without a `ch`.
pub open spec fn field_after(t: Seq<char>, ch: char) -> Option<Seq<char>> {
    match first_index(t, ch) {
        Some(i) => {
            let rest = t.subrange((i + 1) as int, t.len() as int);
            match first_index(rest, ch) {
                Some(j) => Some(rest.subrange(0, j as int)),
                None => Some(rest),
            }
        },
        None => None,
    }
}

/// The text between the first and the second `ch` of `t`, if `t` holds a `ch`.
pub fn field_at(t: &[char], ch: char) -> (r: Option<Vec<char>>)
    ensures
        match r {
            Some(v) => field_after(t@, ch) == Some(v@),
            None => field_after(t@, ch) is None,
        },
{
    let n = t.len();
    match find_char(t, ch) {
        Some(i) => {
            let rest = slice_chars(t, i + 1, n);
            proof {
                assert(first_index(t@, ch) == Some(i as nat)) by {
                    assert(exists|k: int| 0 <= k < t@.len() && t@[k] == ch) by {
                        assert(t@[i as int] == ch);
                    }
                }
            }
            match find_char(rest.as_slice(), ch) {
                Some(j) => {
                    proof {
                        assert(first_index(rest@, ch) == Some(j as nat)) by {
                            assert(rest@[j as int] == ch);
                        }
                    }
                    Some(slice_chars(rest.as_slice(), 0, j))
                },
                None => Some(rest),
            }
        },
        None => None,
    }
}

/// `s` without its leading `ch` characters.
pub fn strip_leading(s: &Vec<char>, ch: char) -> (r: Vec<char>)
    ensures
        r@ == strip_start(s@, false, ch),
{
    let n = s.len();
    let mut lo: usize = 0;
    assert(s@.subrange(0, n as int) =~= s@);
    while lo < n && s[lo] == ch
        invariant
            lo <= n,
            n == s@.len(),
            strip_start(s@, false, ch) == strip_start(s@.subrange(lo as int, n as int), false, ch),
        decreases n - lo,
    {
        proof {
            assert(s@.subrange(lo as int, n as int).drop_first() =~= s@.subrange(lo + 1, n as int));
        }
        lo = lo + 1;
    }
    slice_chars(s.as_slice(), lo, n)
}


} // verus!
