//! The operating system's name, from `/etc/os-release`.
use crate::colorcontrol::{decimal, digit};
use crate::helpers::{chars_of, push_char, string_of};
use crate::configloader::{lemma_segments_nonempty, segments};
use vstd::prelude::*;

verus! {

/// The lines of `s`, as `str::lines` gives them: split at line feeds, a
/// carriage return before a line feed dropped with it, no empty line after a
/// final line feed.
pub open spec fn text_lines(s: Seq<char>) -> Seq<Seq<char>> {
    let segs = segments(s);
    let cut = Seq::new(
        segs.len(),
        |i: int|
            if i < segs.len() - 1 && segs[i].len() > 0 && segs[i].last() == '\r' {
                segs[i].drop_last()
            } else {
                segs[i]
            },
    );
    if s.len() > 0 && s.last() == '\n' {
        cut.drop_last()
    } else {
        cut
    }
}

/// `s` with every leading repetition of `p` removed, as `str::trim_start_matches` does.
pub open spec fn strip_repeated(s: Seq<char>, p: Seq<char>) -> Seq<char>
    decreases s.len(),
{
    if p.len() > 0 && p.len() <= s.len() && s.subrange(0, p.len() as int) == p {
        strip_repeated(s.subrange(p.len() as int, s.len() as int), p)
    } else {
        s
    }
}

pub open spec fn is_quote(c: char) -> bool {
    c == '"' || c == '\''
}

/// `s` without leading and trailing quotes or apostrophes.
pub open spec fn strip_quotes(s: Seq<char>) -> Seq<char>
    decreases s.len(),
{
    if s.len() > 0 && is_quote(s[0]) {
        strip_quotes(s.drop_first())
    } else if s.len() > 0 && is_quote(s.last()) {
        strip_quotes(s.drop_last())
    } else {
        s
    }
}

/// The key that names the operating system in `/etc/os-release`.
pub open spec fn pretty_key() -> Seq<char> {
    "PRETTY_NAME="@
}

/// Index of the first line that starts with the key, if any.
pub open spec fn first_pretty_line(lines: Seq<Seq<char>>) -> Option<int> {
    if exists|i: int| 0 <= i < lines.len() && starts(lines[i], pretty_key()) {
        Some(choose|i: int| 0 <= i < lines.len() && starts(lines[i], pretty_key()) && forall|k: int| 0 <= k < i ==> !starts(#[trigger] lines[k], pretty_key()))
    } else {
        None
    }
}

pub open spec fn starts(s: Seq<char>, p: Seq<char>) -> bool {
    p.len() <= s.len() && s.subrange(0, p.len() as int) == p
}

/// The name that `/etc/os-release` gives: the value of its first
/// `PRETTY_NAME=` line without quotes, else `Linux`.
pub open spec fn os_release_name(content: Seq<char>) -> Seq<char> {
    let lines = text_lines(content);
    match first_pretty_line(lines) {
        Some(i) => strip_quotes(strip_repeated(lines[i], pretty_key())),
        None => "Linux"@,
    }
}


proof fn lemma_segments_step(s: Seq<char>, i: int)
    requires
        0 <= i < s.len(),
    ensures
        segments(s.take(i + 1)).len() >= segments(s.take(i)).len(),
        forall|k: int|
            0 <= k < segments(s.take(i)).len() - 1 ==> #[trigger] segments(s.take(i + 1))[k]
                == segments(s.take(i))[k],
{
    assert(s.take(i + 1).drop_last() =~= s.take(i));
    lemma_segments_nonempty(s.take(i));
}

/// Complete segments of a prefix stay as they are in the whole text.
proof fn lemma_segments_prefix(s: Seq<char>, i: int, j: int)
    requires
        0 <= i <= j <= s.len(),
    ensures
        segments(s.take(j)).len() >= segments(s.take(i)).len(),
        forall|k: int|
            0 <= k < segments(s.take(i)).len() - 1 ==> #[trigger] segments(s.take(j))[k]
                == segments(s.take(i))[k],
    decreases j - i,
{
    if i < j {
        lemma_segments_step(s, i);
        lemma_segments_prefix(s, i + 1, j);
        lemma_segments_nonempty(s.take(i));
    }
}

/// `line` without one trailing carriage return.
pub open spec fn without_cr(line: Seq<char>) -> Seq<char> {
    if line.len() > 0 && line.last() == '\r' {
        line.drop_last()
    } else {
        line
    }
}

fn strip_cr(line: &Vec<char>) -> (r: Vec<char>)
    ensures
        r@ == without_cr(line@),
{
    let n = line.len();
    if n > 0 && line[n - 1] == '\r' {
        let mut r: Vec<char> = Vec::new();
        let mut k: usize = 0;
        while k < n - 1
            invariant
                k <= n - 1,
                n == line@.len(),
                r@ == line@.take(k as int),
            decreases n - 1 - k,
        {
            r.push(line[k]);
            k = k + 1;
            assert(r@ =~= line@.take(k as int));
        }
        assert(line@.take(n - 1) =~= line@.drop_last());
        r
    } else {
        line.clone()
    }
}

/// The value of a `PRETTY_NAME=` line without its key and quotes.
fn pretty_value(line: &Vec<char>) -> (r: String)
    ensures
        r@ == strip_quotes(strip_repeated(line@, pretty_key())),
{
    proof {
        reveal_strlit("PRETTY_NAME=");
    }
    let key = chars_of("PRETTY_NAME=");
    let m = key.len();
    let n = line.len();
    let mut lo: usize = 0;
    assert(line@.subrange(0, n as int) =~= line@);
    while m <= n - lo && starts_at(line, &key, lo)
        invariant
            lo <= n,
            n == line@.len(),
            m == key@.len(),
            m > 0,
            key@ == pretty_key(),
            strip_repeated(line@, pretty_key()) == strip_repeated(line@.subrange(lo as int, n as int), pretty_key()),
        decreases n - lo,
    {
        proof {
            let rest = line@.subrange(lo as int, n as int);
            assert(rest.subrange(0, m as int) =~= line@.subrange(lo as int, lo + m));
            assert(rest.subrange(m as int, rest.len() as int) =~= line@.subrange(lo + m, n as int));
        }
        lo = lo + m;
    }
    proof {
        let rest = line@.subrange(lo as int, n as int);
        if m <= rest.len() {
            assert(rest.subrange(0, m as int) =~= line@.subrange(lo as int, lo + m));
        }
    }
    let mut hi: usize = n;
    let ghost body = line@.subrange(lo as int, n as int);
    assert(strip_repeated(body, pretty_key()) == body);
    while lo < hi && (line[lo] == '"' || line[lo] == '\'' || line[hi - 1] == '"' || line[hi - 1] == '\'')
        invariant
            lo <= hi <= n,
            n == line@.len(),
            strip_quotes(body) == strip_quotes(line@.subrange(lo as int, hi as int)),
        decreases hi - lo,
    {
        let ghost cur = line@.subrange(lo as int, hi as int);
        if line[lo] == '"' || line[lo] == '\'' {
            assert(cur.drop_first() =~= line@.subrange(lo + 1, hi as int));
            lo = lo + 1;
        } else {
            assert(cur.drop_last() =~= line@.subrange(lo as int, hi - 1));
            hi = hi - 1;
        }
    }
    let mut r = String::new();
    let mut k: usize = lo;
    while k < hi
        invariant
            lo <= k <= hi <= n,
            n == line@.len(),
            r@ == line@.subrange(lo as int, k as int),
        decreases hi - k,
    {
        crate::helpers::push_char(&mut r, line[k]);
        k = k + 1;
        assert(r@ =~= line@.subrange(lo as int, k as int));
    }
    r
}

/// Whether `key` occurs in `line` at `lo`.
fn starts_at(line: &Vec<char>, key: &Vec<char>, lo: usize) -> (r: bool)
    requires
        lo + key@.len() <= line@.len(),
    ensures
        r == (line@.subrange(lo as int, lo + key@.len()) == key@),
{
    let m = key.len();
    let n = line.len();
    let mut j: usize = 0;
    while j < m
        invariant
            j <= m,
            m == key@.len(),
            n == line@.len(),
            lo + m <= n,
            forall|k: int| 0 <= k < j ==> line@[lo + k] == key@[k],
        decreases m - j,
    {
        if line[lo + j] != key[j] {
            assert(line@.subrange(lo as int, lo + m)[j as int] != key@[j as int]);
            return false;
        }
        j = j + 1;
    }
    assert(line@.subrange(lo as int, lo + m) =~= key@);
    true
}



/// Whether `line` starts with the key.
fn is_pretty_line(line: &Vec<char>) -> (r: bool)
    ensures
        r == starts(line@, pretty_key()),
{
    proof {
        reveal_strlit("PRETTY_NAME=");
    }
    let key = chars_of("PRETTY_NAME=");
    if key.len() > line.len() {
        return false;
    }
    starts_at(line, &key, 0)
}

/// The name that the contents of `/etc/os-release` give.
pub fn pretty_name(content: &str) -> (r: String)
    ensures
        r@ == os_release_name(content@),
{
    proof {
        reveal_strlit("Linux");
    }
    let cs = chars_of(content);
    let n = cs.len();
    let ghost s = content@;
    let ghost lines = text_lines(s);
    let ghost segs = segments(s);
    proof {
        lemma_segments_nonempty(s);
    }
    let mut line: Vec<char> = Vec::new();
    let ghost mut done: nat = 0;
    assert(s.take(0) =~= Seq::<char>::empty());
    let mut i: usize = 0;
    while i < n
        invariant
            i <= n,
            n == cs@.len(),
            cs@ == s,
            s == content@,
            lines == text_lines(s),
            segs == segments(s),
            segments(s.take(i as int)).len() == done + 1,
            segments(s.take(i as int))[done as int] == line@,
            done < segs.len(),
            forall|k: int| 0 <= k < done ==> k < lines.len() && !starts(#[trigger] lines[k], pretty_key()),
        decreases n - i,
    {
        let ghost s1 = s.take(i + 1);
        assert(s1.drop_last() =~= s.take(i as int));
        if cs[i] == '\n' {
            proof {
                lemma_segments_prefix(s, i + 1, n as int);
                assert(s.take(n as int) =~= s);
                assert(segs[done as int] == line@);
                assert(done < segs.len() - 1);
                assert(lines[done as int] == without_cr(line@));
            }
            let cut = strip_cr(&line);
            if is_pretty_line(&cut) {
                proof {
                    let j = first_pretty_line(lines)->0;
                    assert(exists|i: int| 0 <= i < lines.len() && starts(lines[i], pretty_key())) by {
                        assert(starts(lines[done as int], pretty_key()));
                    }
                    if j < done {
                    } else if j > done {
                        assert(!starts(lines[done as int], pretty_key()));
                    }
                    assert(first_pretty_line(lines) == Some(done as int));
                }
                return pretty_value(&cut);
            }
            proof {
                done = done + 1;
            }
            line = Vec::new();
        } else {
            line.push(cs[i]);
        }
        i = i + 1;
        proof {
            assert(segments(s.take(i as int))[done as int] =~= line@);
        }
    }
    proof {
        assert(s.take(n as int) =~= s);
    }
    let ghost last_is_line = !(s.len() > 0 && s.last() == '\n');
    if line.len() > 0 && is_pretty_line(&line) {
        proof {
            if s.len() > 0 && s.last() == '\n' {
                assert(segments(s) == segments(s.drop_last()).push(Seq::empty()));
                assert(s.drop_last() =~= s.take(n - 1));
            }
            assert(lines[done as int] == line@);
            let j = first_pretty_line(lines)->0;
            assert(exists|i: int| 0 <= i < lines.len() && starts(lines[i], pretty_key())) by {
                assert(starts(lines[done as int], pretty_key()));
            }
            if j > done {
                assert(!starts(lines[done as int], pretty_key()));
            }
        }
        return pretty_value(&line);
    }
    proof {
        reveal_strlit("PRETTY_NAME=");
        assert(pretty_key().len() == 12);
        assert(segs.len() == done + 1);
        assert(segs[done as int] == line@);
        assert forall|k: int| 0 <= k < lines.len() implies !starts(#[trigger] lines[k], pretty_key()) by {
            if k == done {
                assert(!(s.len() > 0 && s.last() == '\n'));
                assert(lines[k] == segs[k]);
                if line@.len() == 0 {
                    assert(lines[k].len() == 0);
                }
            }
        }
        assert(first_pretty_line(lines) is None);
    }
    "Linux".to_string()
}

/// The operating system's name: the cached one where there is one, else the
/// one that the contents of `/etc/os-release` give, else `Linux`.
pub fn os(cached: Option<String>, os_release: Option<&str>) -> (r: String)
    ensures
        r@ == match cached {
            Some(c) => c@,
            None => match os_release {
                Some(t) => os_release_name(t@),
                None => "Linux"@,
            },
        },
{
    if let Some(c) = cached {
        return c;
    }
    match os_release {
        Some(t) => pretty_name(t),
        None => "Linux".to_string(),
    }
}



/// The pieces of `content` between line feeds.
fn segments_of(content: &str) -> (r: Vec<Vec<char>>)
    ensures
        r@.len() == segments(content@).len(),
        forall|k: int| 0 <= k < r@.len() ==> #[trigger] r@[k]@ == segments(content@)[k],
{
    let cs = chars_of(content);
    let n = cs.len();
    let ghost s = content@;
    let mut done: Vec<Vec<char>> = Vec::new();
    let mut line: Vec<char> = Vec::new();
    assert(s.take(0) =~= Seq::<char>::empty());
    let mut i: usize = 0;
    while i < n
        invariant
            i <= n,
            n == cs@.len(),
            cs@ == s,
            s == content@,
            segments(s.take(i as int)).len() == done@.len() + 1,
            forall|k: int| 0 <= k < done@.len() ==> #[trigger] done@[k]@ == segments(s.take(i as int))[k],
            segments(s.take(i as int))[done@.len() as int] == line@,
        decreases n - i,
    {
        let ghost s1 = s.take(i + 1);
        assert(s1.drop_last() =~= s.take(i as int));
        if cs[i] == '\n' {
            done.push(line);
            line = Vec::new();
        } else {
            line.push(cs[i]);
        }
        i = i + 1;
    }
    assert(s.take(n as int) =~= s);
    done.push(line);
    done
}

/// The lines of `content`, as `str::lines` gives them.
pub fn lines_of(content: &str) -> (r: Vec<Vec<char>>)
    ensures
        r@.len() == text_lines(content@).len(),
        forall|k: int| 0 <= k < r@.len() ==> #[trigger] r@[k]@ == text_lines(content@)[k],
{
    let ghost s = content@;
    let segs = segments_of(content);
    proof {
        lemma_segments_nonempty(s);
    }
    let m = segs.len();
    let ends_with_lf = {
        let cs = chars_of(content);
        cs.len() > 0 && cs[cs.len() - 1] == '\n'
    };
    let keep = if ends_with_lf {
        m - 1
    } else {
        m
    };
    let mut r: Vec<Vec<char>> = Vec::new();
    let mut k: usize = 0;
    while k < keep
        invariant
            k <= keep,
            keep <= m,
            m == segs@.len(),
            m == segments(s).len(),
            keep == text_lines(s).len(),
            s == content@,
            forall|j: int| 0 <= j < m ==> #[trigger] segs@[j]@ == segments(s)[j],
            r@.len() == k,
            forall|j: int| 0 <= j < k ==> #[trigger] r@[j]@ == text_lines(s)[j],
        decreases keep - k,
    {
        if k + 1 < m {
            r.push(strip_cr(&segs[k]));
        } else {
            r.push(segs[k].clone());
        }
        k = k + 1;
    }
    r
}


fn digit_char(d: u64) -> (c: char)
    requires
        d < 10,
    ensures
        c == digit(d as nat),
{
    let digits = ['0', '1', '2', '3', '4', '5', '6', '7', '8', '9'];
    proof {
        assert(digits@ =~= seq!['0', '1', '2', '3', '4', '5', '6', '7', '8', '9']);
    }
    digits[d as usize]
}

/// `n` in decimal notation.
pub fn decimal_string(n: u64) -> (r: String)
    ensures
        r@ == decimal(n as nat),
    decreases n,
{
    if n < 10 {
        let mut r = String::new();
        push_char(&mut r, digit_char(n));
        assert(r@ =~= seq![digit(n as nat)]);
        r
    } else {
        let mut r = decimal_string(n / 10);
        push_char(&mut r, digit_char(n % 10));
        r
    }
}

/// How long the system has been up, in hours and minutes: `12h 4m`, or only
/// the minutes under an hour.
pub open spec fn uptime_text(seconds: nat) -> Seq<char> {
    let h = seconds / 3600;
    let m = (seconds % 3600) / 60;
    if h > 0 {
        decimal(h) + "h "@ + decimal(m) + "m"@
    } else {
        decimal(m) + "m"@
    }
}

/// The uptime `seconds` in hours and minutes.
pub fn format_uptime(seconds: u64) -> (r: String)
    ensures
        r@ == uptime_text(seconds as nat),
{
    proof {
        reveal_strlit("h ");
        reveal_strlit("m");
    }
    let h = seconds / 3600;
    let m = (seconds % 3600) / 60;
    if h > 0 {
        let mut r = decimal_string(h);
        r.append("h ");
        r.append(decimal_string(m).as_str());
        r.append("m");
        r
    } else {
        let mut r = decimal_string(m);
        r.append("m");
        r
    }
}

} // verus!
