//! The processor's model name, from `/proc/cpuinfo`.
use crate::configloader::begins;
use crate::coremodules::{lines_of, text_lines};
use crate::fontmodule::ends_with;
use crate::fontmodule::before_char;
use crate::fontmodule::opt_text;
use crate::helpers::{field_after, field_at, has_sub, is_space, is_ws, push_char, trim};
use vstd::prelude::*;

verus! {

/// Whether `c` separates words: ASCII white space where `ascii`, as
/// `str::split_ascii_whitespace` has it, else any white space.
pub open spec fn separates(c: char, ascii: bool) -> bool {
    if ascii {
        c == ' ' || c == '\t' || c == '\n' || c == '\u{c}' || c == '\r'
    } else {
        is_ws(c)
    }
}

/// The words of `s`: its longest runs of characters that do not separate
/// words, in order, as `split_whitespace` (or `split_ascii_whitespace`)
/// gives them.
pub open spec fn words_by(s: Seq<char>, ascii: bool) -> Seq<Seq<char>>
    decreases s.len(),
{
    if s.len() == 0 {
        Seq::empty()
    } else {
        let w = words_by(s.drop_last(), ascii);
        let c = s.last();
        if separates(c, ascii) {
            w
        } else if s.len() >= 2 && !separates(s[s.len() - 2], ascii) {
            w.update(w.len() - 1, w.last().push(c))
        } else {
            w.push(seq![c])
        }
    }
}

/// The words of `s` between white space.
pub open spec fn words(s: Seq<char>) -> Seq<Seq<char>> {
    words_by(s, false)
}

fn separates_exec(c: char, ascii: bool) -> (r: bool)
    ensures
        r == separates(c, ascii),
{
    if ascii {
        c == ' ' || c == '\t' || c == '\n' || c == '\u{c}' || c == '\r'
    } else {
        is_space(c)
    }
}

/// The code of `c` in lower case where it is an ASCII capital letter.
pub open spec fn ascii_lower(c: char) -> nat {
    if 'A' <= c && c <= 'Z' {
        (c as u32) as nat + 32
    } else {
        (c as u32) as nat
    }
}

/// Whether `a` and `b` are equal when ASCII letters are compared without regard to case.
pub open spec fn eq_ascii_ci(a: Seq<char>, b: Seq<char>) -> bool {
    a.len() == b.len() && forall|i: int| 0 <= i < a.len() ==> ascii_lower(#[trigger] a[i]) == ascii_lower(b[i])
}

/// Whether the word `w` starts the description of built-in graphics, as in
/// `with Radeon Graphics` or `w/ Intel UHD`.
pub open spec fn starts_graphics(w: Seq<char>) -> bool {
    eq_ascii_ci(w, "with"@) || eq_ascii_ci(w, "w/"@)
}

/// Whether the word `w` is kept in the model name: not a core count such as
/// `8-Core`, not `Processor`.
pub open spec fn kept_word(w: Seq<char>) -> bool {
    !ends_with(w, "-Core"@) && w != "Processor"@
}

/// The kept words of `ws` up to the first that starts the description of
/// built-in graphics, joined by single spaces.
pub open spec fn model_words(ws: Seq<Seq<char>>) -> Seq<char>
    decreases ws.len(),
{
    join_kept(ws, 0, Seq::empty())
}

/// `acc` followed by the kept words of `ws` from index `i`, joined by single
/// spaces, stopping at a word that starts the description of built-in graphics.
pub open spec fn join_kept(ws: Seq<Seq<char>>, i: int, acc: Seq<char>) -> Seq<char>
    decreases ws.len() - i,
{
    if i < 0 || i >= ws.len() || starts_graphics(ws[i]) {
        acc
    } else if kept_word(ws[i]) {
        join_kept(ws, i + 1, if acc.len() == 0 { ws[i] } else { acc + seq![' '] + ws[i] })
    } else {
        join_kept(ws, i + 1, acc)
    }
}


/// The model name that `/proc/cpuinfo` gives: from its first `model name`
/// line holding a `:`, the words after the `:`, cleaned by `model_words`.
pub open spec fn cpu_model(lines: Seq<Seq<char>>) -> Option<Seq<char>>
    decreases lines.len(),
{
    if lines.len() == 0 {
        None
    } else if begins(lines[0], "model name"@) && field_after(lines[0], ':') is Some {
        Some(model_words(words(field_after(lines[0], ':')->0)))
    } else {
        cpu_model(lines.drop_first())
    }
}

proof fn lemma_words_last(s: Seq<char>, ascii: bool)
    requires
        s.len() > 0,
        !separates(s.last(), ascii),
    ensures
        words_by(s, ascii).len() > 0,
    decreases s.len(),
{
    if s.len() >= 2 && !separates(s[s.len() - 2], ascii) {
        assert(s.drop_last().last() == s[s.len() - 2]);
        lemma_words_last(s.drop_last(), ascii);
    }
}

proof fn lemma_word_nonempty(s: Seq<char>, ascii: bool, k: int)
    requires
        0 <= k < words_by(s, ascii).len(),
    ensures
        words_by(s, ascii)[k].len() > 0,
    decreases s.len(),
{
    if s.len() > 0 {
        let w = words_by(s.drop_last(), ascii);
        if separates(s.last(), ascii) {
            lemma_word_nonempty(s.drop_last(), ascii, k);
        } else if s.len() >= 2 && !separates(s[s.len() - 2], ascii) {
            assert(s.drop_last().last() == s[s.len() - 2]);
            lemma_words_last(s.drop_last(), ascii);
            if k < w.len() - 1 {
                lemma_word_nonempty(s.drop_last(), ascii, k);
            } else {
                assert(words_by(s, ascii)[k] == w.last().push(s.last()));
            }
        } else {
            if k < w.len() {
                lemma_word_nonempty(s.drop_last(), ascii, k);
            } else {
                assert(words_by(s, ascii)[k] == seq![s.last()]);
            }
        }
    }
}

/// The words of `s`.
pub(crate) fn split_words(s: &Vec<char>, ascii: bool) -> (r: Vec<Vec<char>>)
    ensures
        r@.len() == words_by(s@, ascii).len(),
        forall|k: int| 0 <= k < r@.len() ==> #[trigger] r@[k]@ == words_by(s@, ascii)[k],
{
    let n = s.len();
    let mut r: Vec<Vec<char>> = Vec::new();
    let mut in_word = false;
    let mut i: usize = 0;
    assert(s@.take(0) =~= Seq::<char>::empty());
    while i < n
        invariant
            i <= n,
            n == s@.len(),
            r@.len() == words_by(s@.take(i as int), ascii).len(),
            forall|k: int| 0 <= k < r@.len() ==> #[trigger] r@[k]@ == words_by(s@.take(i as int), ascii)[k],
            in_word == (i > 0 && !separates(s@[i - 1], ascii)),
        decreases n - i,
    {
        let ghost t1 = s@.take(i + 1);
        assert(t1.drop_last() =~= s@.take(i as int));
        assert(t1.last() == s@[i as int]);
        let c = s[i];
        if separates_exec(c, ascii) {
            in_word = false;
        } else if in_word {
            proof {
                assert(s@.take(i as int).last() == s@[i - 1]);
                lemma_words_last(s@.take(i as int), ascii);
                assert(t1[t1.len() - 2] == s@[i - 1]);
            }
            let ghost before = r@;
            let mut w = r.pop().unwrap();
            w.push(c);
            r.push(w);
            proof {
                assert forall|k: int| 0 <= k < r@.len() implies #[trigger] r@[k]@ == words_by(t1, ascii)[k] by {
                    if k < r@.len() - 1 {
                        assert(r@[k] == before[k]);
                    }
                }
            }
        } else {
            proof {
                if i >= 1 {
                    assert(t1[t1.len() - 2] == s@[i - 1]);
                }
            }
            let mut w: Vec<char> = Vec::new();
            w.push(c);
            assert(w@ =~= seq![c]);
            r.push(w);
            in_word = true;
        }
        i = i + 1;
    }
    assert(s@.take(n as int) =~= s@);
    r
}

/// Whether the characters `a` equal `b` without regard to the case of ASCII letters.
fn same_ignoring_ascii_case(a: &Vec<char>, b: &str) -> (r: bool)
    ensures
        r == eq_ascii_ci(a@, b@),
{
    let bs = crate::helpers::chars_of(b);
    if a.len() != bs.len() {
        return false;
    }
    let n = a.len();
    let mut i: usize = 0;
    while i < n
        invariant
            i <= n,
            n == a@.len(),
            n == bs@.len(),
            bs@ == b@,
            forall|k: int| 0 <= k < i ==> ascii_lower(#[trigger] a@[k]) == ascii_lower(bs@[k]),
        decreases n - i,
    {
        let x = a[i];
        let y = bs[i];
        let lx: u32 = if 'A' <= x && x <= 'Z' {
            (x as u32) + 32
        } else {
            x as u32
        };
        let ly: u32 = if 'A' <= y && y <= 'Z' {
            (y as u32) + 32
        } else {
            y as u32
        };
        if lx != ly {
            return false;
        }
        i = i + 1;
    }
    true
}

/// The processor's model name from one `model name : ...` value: its words up
/// to a description of built-in graphics, without the core count and the word
/// `Processor`, joined by single spaces.
pub fn clean_model_name(value: &Vec<char>) -> (r: String)
    ensures
        r@ == model_words(words(value@)),
{
    proof {
        reveal_strlit("with");
        reveal_strlit("w/");
        reveal_strlit("-Core");
        reveal_strlit("Processor");
    }
    let ws = split_words(value, false);
    let ghost wv = words(value@);
    let n = ws.len();
    let mut out = String::new();
    let mut any = false;
    let mut i: usize = 0;
    while i < n
        invariant
            i <= n,
            any == (out@.len() > 0),
            n == ws@.len(),
            n == wv.len(),
            wv == words(value@),
            forall|k: int| 0 <= k < n ==> #[trigger] ws@[k]@ == wv[k],
            model_words(wv) == join_kept(wv, i as int, out@),
        decreases n - i,
    {
        let w = &ws[i];
        let ghost old_out = out@;
        if same_ignoring_ascii_case(w, "with") || same_ignoring_ascii_case(w, "w/") {
            return out;
        }
        assert(!starts_graphics(wv[i as int]));
        let core = crate::helpers::chars_of("-Core");
        let is_core = w.len() >= core.len() && ends_with_chars(w, &core);
        let is_processor = crate::helpers::equals(w.as_slice(), "Processor");
        if !is_core && !is_processor {
            if any {
                push_char(&mut out, ' ');
            }
            let m = w.len();
            let mut j: usize = 0;
            let ghost start = out@;
            while j < m
                invariant
                    j <= m,
                    m == w@.len(),
                    out@ == start + w@.take(j as int),
                decreases m - j,
            {
                push_char(&mut out, w[j]);
                j = j + 1;
                assert(out@ =~= start + w@.take(j as int));
            }
            assert(w@.take(m as int) =~= w@);
            proof {
                lemma_word_nonempty(value@, false, i as int);
                assert(kept_word(wv[i as int]));
                if old_out.len() == 0 {
                    assert(out@ =~= wv[i as int]);
                } else {
                    assert(out@ =~= old_out + seq![' '] + wv[i as int]);
                }
            }
            any = true;
        } else {
            assert(!kept_word(wv[i as int]));
        }
        i = i + 1;
    }
    out
}

fn ends_with_chars(w: &Vec<char>, suffix: &Vec<char>) -> (r: bool)
    requires
        suffix@.len() <= w@.len(),
    ensures
        r == (w@.subrange(w@.len() - suffix@.len(), w@.len() as int) == suffix@),
{
    let n = w.len();
    let m = suffix.len();
    let mut j: usize = 0;
    while j < m
        invariant
            j <= m,
            m <= n,
            n == w@.len(),
            m == suffix@.len(),
            forall|k: int| 0 <= k < j ==> w@[n - m + k] == suffix@[k],
        decreases m - j,
    {
        if w[n - m + j] != suffix[j] {
            assert(w@.subrange(n - m, n as int)[j as int] != suffix@[j as int]);
            return false;
        }
        j = j + 1;
    }
    assert(w@.subrange(n - m, n as int) =~= suffix@);
    true
}

/// The processor's model name that the contents of `/proc/cpuinfo` give, if
/// they hold a `model name` line.
#[verifier::rlimit(30)]
pub fn cpu_model_name(cpuinfo: &str) -> (r: Option<String>)
    ensures
        match r {
            Some(m) => cpu_model(text_lines(cpuinfo@)) == Some(m@),
            None => cpu_model(text_lines(cpuinfo@)) is None,
        },
{
    proof {
        reveal_strlit("model name");
    }
    let lines = lines_of(cpuinfo);
    let ghost all = text_lines(cpuinfo@);
    let n = lines.len();
    let mut i: usize = 0;
    assert(all.subrange(0, n as int) =~= all);
    while i < n
        invariant
            i <= n,
            n == lines@.len(),
            n == all.len(),
            all == text_lines(cpuinfo@),
            forall|k: int| 0 <= k < n ==> #[trigger] lines@[k]@ == all[k],
            cpu_model(all) == cpu_model(all.subrange(i as int, n as int)),
        decreases n - i,
    {
        proof {
            assert(all.subrange(i as int, n as int).drop_first() =~= all.subrange(i + 1, n as int));
            assert(all.subrange(i as int, n as int)[0] == lines@[i as int]@);
        }
        if crate::helpers::starts_with(lines[i].as_slice(), "model name") {
            if let Some(value) = field_at(lines[i].as_slice(), ':') {
                return Some(clean_model_name(&value));
            }
        }
        i = i + 1;
    }
    None
}


/// The processor line shown: the cached one where there is one; else the model
/// name that the contents of `/proc/cpuinfo` give followed by `boost`, the
/// clock text; else `unknown`.
pub fn cpu(cached: Option<String>, cpuinfo: Option<&str>, boost: &str) -> (r: String)
    ensures
        r@ == match cached {
            Some(c) => c@,
            None => match cpuinfo {
                Some(t) => match cpu_model(text_lines(t@)) {
                    Some(m) => m + boost@,
                    None => "unknown"@,
                },
                None => "unknown"@,
            },
        },
{
    if let Some(c) = cached {
        return c;
    }
    if let Some(t) = cpuinfo {
        if let Some(mut model) = cpu_model_name(t) {
            model.append(boost);
            return model;
        }
    }
    "unknown".to_string()
}


/// `needle` occurs in `haystack` at `i`.
pub open spec fn bytes_at(haystack: Seq<u8>, needle: Seq<u8>, i: int) -> bool {
    0 <= i && i + needle.len() <= haystack.len() && haystack.subrange(i, i + needle.len()) == needle
}

/// Relies on `memchr::memmem::find`: the index of the first occurrence of
/// `needle` in `haystack`.
#[verifier::external_body]
fn find_bytes(haystack: &[u8], needle: &[u8]) -> (r: Option<usize>)
    requires
        needle@.len() > 0,
    ensures
        match r {
            Some(i) => bytes_at(haystack@, needle@, i as int) && forall|k: int|
                0 <= k < i ==> !bytes_at(haystack@, needle@, k),
            None => forall|k: int| !bytes_at(haystack@, needle@, k),
        },
{
    memchr::memmem::find(haystack, needle)
}

/// Relies on `memchr::memchr`: the index of the first `byte` in `haystack`.
#[verifier::external_body]
fn find_byte(byte: u8, haystack: &[u8]) -> (r: Option<usize>)
    ensures
        match r {
            Some(i) => i < haystack@.len() && haystack@[i as int] == byte && forall|k: int|
                0 <= k < i ==> haystack@[k] != byte,
            None => forall|k: int| 0 <= k < haystack@.len() ==> haystack@[k] != byte,
        },
{
    memchr::memchr(byte, haystack)
}

/// Relies on `std::str::from_utf8`: where it succeeds, the text whose UTF-8
/// encoding the bytes are.
#[verifier::external_body]
fn utf8_text(bytes: &[u8]) -> (r: Option<String>)
    ensures
        r matches Some(t) ==> vstd::utf8::encode_utf8(t@) == bytes@,
{
    std::str::from_utf8(bytes).ok().map(|t| t.to_string())
}

/// Index of the first occurrence of `needle` in `haystack`.
pub open spec fn first_bytes(haystack: Seq<u8>, needle: Seq<u8>) -> Option<int> {
    if exists|i: int| bytes_at(haystack, needle, i) {
        Some(choose|i: int| bytes_at(haystack, needle, i) && forall|k: int| 0 <= k < i ==> !bytes_at(haystack, needle, k))
    } else {
        None
    }
}

/// Index of the first `b` in `s`.
pub open spec fn first_byte(s: Seq<u8>, b: u8) -> Option<int> {
    if exists|i: int| 0 <= i < s.len() && s[i] == b {
        Some(choose|i: int| 0 <= i < s.len() && s[i] == b && forall|k: int| 0 <= k < i ==> s[k] != b)
    } else {
        None
    }
}

/// The rest of the line after the first `sep` that follows the first `key`
/// in a tool's output, as bytes.
pub open spec fn value_after(out: Seq<u8>, key: Seq<u8>, sep: u8) -> Option<Seq<u8>> {
    match first_bytes(out, key) {
        Some(p) => {
            let a = out.subrange(p + key.len(), out.len() as int);
            match first_byte(a, sep) {
                Some(e) => {
                    let b = a.subrange(e + 1, a.len() as int);
                    let end = match first_byte(b, 0x0a) {
                        Some(x) => x,
                        None => b.len() as int,
                    };
                    Some(b.subrange(0, end))
                },
                None => None,
            }
        },
        None => None,
    }
}

fn slice_bytes(s: &[u8], lo: usize, hi: usize) -> (r: Vec<u8>)
    requires
        lo <= hi <= s@.len(),
    ensures
        r@ == s@.subrange(lo as int, hi as int),
{
    let mut r: Vec<u8> = Vec::new();
    let mut k: usize = lo;
    while k < hi
        invariant
            lo <= k <= hi <= s@.len(),
            r@ == s@.subrange(lo as int, k as int),
        decreases hi - k,
    {
        r.push(s[k]);
        k = k + 1;
        assert(r@ =~= s@.subrange(lo as int, k as int));
    }
    r
}

/// The bytes of the value after `key` and `sep` on the line where `key` first occurs.
pub fn value_bytes(out: &[u8], key: &[u8], sep: u8) -> (r: Option<Vec<u8>>)
    requires
        key@.len() > 0,
    ensures
        match r {
            Some(v) => value_after(out@, key@, sep) == Some(v@),
            None => value_after(out@, key@, sep) is None,
        },
{
    let n = out.len();
    let p = match find_bytes(out, key) {
        Some(p) => p,
        None => return None,
    };
    proof {
        assert(first_bytes(out@, key@) == Some(p as int)) by {
            assert(bytes_at(out@, key@, p as int));
        }
    }
    let a = slice_bytes(out, p + key.len(), n);
    let e = match find_byte(sep, a.as_slice()) {
        Some(e) => e,
        None => {
            proof {
                assert(!(exists|i: int| 0 <= i < a@.len() && a@[i] == sep));
            }
            return None;
        },
    };
    proof {
        assert(first_byte(a@, sep) == Some(e as int)) by {
            assert(a@[e as int] == sep);
        }
    }
    let b = slice_bytes(a.as_slice(), e + 1, a.len());
    let end = match find_byte(0x0a, b.as_slice()) {
        Some(x) => {
            proof {
                assert(first_byte(b@, 0x0a) == Some(x as int)) by {
                    assert(b@[x as int] == 0x0a);
                }
            }
            x
        },
        None => {
            proof {
                assert(!(exists|i: int| 0 <= i < b@.len() && b@[i] == 0x0a));
            }
            b.len()
        },
    };
    Some(slice_bytes(b.as_slice(), 0, end))
}

/// The GPU name in a device value of `vulkaninfo --summary`: without the
/// parenthesised driver note; none for a processor or the software renderer.
pub open spec fn vulkan_gpu_name(text: Seq<char>) -> Option<Seq<char>> {
    let name = trim(before_char(trim(text), '('));
    if name.len() > 0 && !has_sub(name, "Processor"@) && !has_sub(name, "llvmpipe"@) {
        Some(name)
    } else {
        None
    }
}

/// The GPU name in the renderer value of `glxinfo`: without the parenthesised
/// note; none for the software renderer.
pub open spec fn glx_gpu_name(text: Seq<char>) -> Option<Seq<char>> {
    let name = trim(before_char(trim(text), '('));
    if name.len() > 0 && name != "llvmpipe"@ {
        Some(name)
    } else {
        None
    }
}

fn name_before_paren(text: &str) -> (r: Vec<char>)
    ensures
        r@ == trim(before_char(trim(text@), '(')),
{
    let cs = crate::helpers::chars_of(text);
    let t = crate::helpers::strip_both(cs.as_slice(), true, ' ');
    let b = crate::fontmodule::before_char_exec(&t, '(');
    crate::helpers::strip_both(b.as_slice(), true, ' ')
}

/// The GPU name in a device value of `vulkaninfo --summary`.
pub fn vulkan_name(text: &str) -> (r: Option<String>)
    ensures
        match r {
            Some(g) => vulkan_gpu_name(text@) == Some(g@),
            None => vulkan_gpu_name(text@) is None,
        },
{
    let name = name_before_paren(text);
    let shown = crate::helpers::string_of(name.as_slice());
    if name.len() > 0 && !crate::helpers::contains_chars(&name, "Processor")
        && !crate::helpers::contains_chars(&name, "llvmpipe") {
        Some(shown)
    } else {
        None
    }
}

/// The GPU name in the renderer value of `glxinfo`.
pub fn glx_name(text: &str) -> (r: Option<String>)
    ensures
        match r {
            Some(g) => glx_gpu_name(text@) == Some(g@),
            None => glx_gpu_name(text@) is None,
        },
{
    let name = name_before_paren(text);
    let shown = crate::helpers::string_of(name.as_slice());
    if name.len() > 0 && !crate::helpers::equals(name.as_slice(), "llvmpipe") {
        Some(shown)
    } else {
        None
    }
}

/// The key of the device line of `vulkaninfo --summary`.
pub open spec fn device_key() -> Seq<u8> {
    seq![0x64, 0x65, 0x76, 0x69, 0x63, 0x65, 0x4e, 0x61, 0x6d, 0x65]
}

/// The key of the renderer line of `glxinfo`.
pub open spec fn renderer_key() -> Seq<u8> {
    seq![0x4f, 0x70, 0x65, 0x6e, 0x47, 0x4c, 0x20, 0x72, 0x65, 0x6e, 0x64, 0x65, 0x72, 0x65, 0x72]
}

/// The GPU that the output of `vulkaninfo --summary` names: the `deviceName =
/// ...` value read as UTF-8 and cleaned by `vulkan_gpu_name`. None where there
/// is no such value or it is not text.
pub fn gpu_from_vulkaninfo(stdout: &[u8]) -> (r: Option<String>)
    ensures
        r matches Some(g) ==> value_after(stdout@, device_key(), 0x3d) matches Some(v)
            && vstd::utf8::encode_utf8(vstd::utf8::decode_utf8(v)) == v
            && vulkan_gpu_name(vstd::utf8::decode_utf8(v)) == Some(g@),
        value_after(stdout@, device_key(), 0x3d) is None ==> r is None,
{
    let key: Vec<u8> = vec![0x64, 0x65, 0x76, 0x69, 0x63, 0x65, 0x4e, 0x61, 0x6d, 0x65];
    assert(key@ =~= device_key());
    let v = match value_bytes(stdout, key.as_slice(), 0x3d) {
        Some(v) => v,
        None => return None,
    };
    let t = match utf8_text(v.as_slice()) {
        Some(t) => t,
        None => return None,
    };
    proof {
        vstd::utf8::encode_utf8_decode_utf8(t@);
    }
    vulkan_name(t.as_str())
}

/// The GPU that the output of `glxinfo` names: the `OpenGL renderer ...: ...`
/// value read as UTF-8 and cleaned by `glx_gpu_name`. None where there is no
/// such value or it is not text.
pub fn gpu_from_glxinfo(stdout: &[u8]) -> (r: Option<String>)
    ensures
        r matches Some(g) ==> value_after(stdout@, renderer_key(), 0x3a) matches Some(v)
            && vstd::utf8::encode_utf8(vstd::utf8::decode_utf8(v)) == v
            && glx_gpu_name(vstd::utf8::decode_utf8(v)) == Some(g@),
        value_after(stdout@, renderer_key(), 0x3a) is None ==> r is None,
{
    let key: Vec<u8> = vec![0x4f, 0x70, 0x65, 0x6e, 0x47, 0x4c, 0x20, 0x72, 0x65, 0x6e, 0x64, 0x65, 0x72, 0x65, 0x72];
    assert(key@ =~= renderer_key());
    let v = match value_bytes(stdout, key.as_slice(), 0x3a) {
        Some(v) => v,
        None => return None,
    };
    let t = match utf8_text(v.as_slice()) {
        Some(t) => t,
        None => return None,
    };
    proof {
        vstd::utf8::encode_utf8_decode_utf8(t@);
    }
    glx_name(t.as_str())
}


/// Whether `line` of a `pci.ids` file starts with the id `id` followed, as its
/// fifth character, by a space.
pub open spec fn id_line(line: Seq<char>, id: Seq<char>) -> bool {
    begins(line, id) && line.len() > 4 && line[4] == ' '
}

/// The name after a four-character id.
pub open spec fn name_after_id(line: Seq<char>) -> Seq<char> {
    trim(line.subrange(4, line.len() as int))
}

/// The vendor name that the first line for `vendor` gives.
pub open spec fn pci_vendor(lines: Seq<Seq<char>>, vendor: Seq<char>) -> Option<Seq<char>>
    decreases lines.len(),
{
    if lines.len() == 0 {
        None
    } else if id_line(lines[0], vendor) {
        Some(name_after_id(lines[0]))
    } else {
        pci_vendor(lines.drop_first(), vendor)
    }
}

/// The device name for `device` among the tab-indented lines that follow a
/// line for `vendor`, before the next vendor line.
pub open spec fn pci_device(
    lines: Seq<Seq<char>>,
    vendor: Seq<char>,
    device: Seq<char>,
    in_vendor: bool,
) -> Option<Seq<char>>
    decreases lines.len(),
{
    if lines.len() == 0 {
        None
    } else {
        let l = lines[0];
        let rest = lines.drop_first();
        if id_line(l, vendor) {
            pci_device(rest, vendor, device, true)
        } else if in_vendor && !begins(l, seq!['\t']) && l.len() > 0 && !begins(l, seq!['#']) {
            None
        } else if in_vendor && begins(l, seq!['\t']) && !begins(l, seq!['\t', '\t']) {
            let t = crate::helpers::strip_start(l, false, '\t');
            if id_line(t, device) {
                Some(name_after_id(t))
            } else {
                pci_device(rest, vendor, device, in_vendor)
            }
        } else {
            pci_device(rest, vendor, device, in_vendor)
        }
    }
}

fn is_id_line(line: &Vec<char>, id: &str) -> (r: bool)
    ensures
        r == id_line(line@, id@),
{
    crate::helpers::starts_with(line.as_slice(), id) && line.len() > 4 && line[4] == ' '
}

fn name_after_id_exec(line: &Vec<char>) -> (r: String)
    requires
        line@.len() > 4,
    ensures
        r@ == name_after_id(line@),
{
    let rest = crate::helpers::slice_chars(line.as_slice(), 4, line.len());
    let t = crate::helpers::strip_both(rest.as_slice(), true, ' ');
    crate::helpers::string_of(t.as_slice())
}

/// The vendor name that the `pci.ids` text `pci_ids` gives for `vendor_id`.
pub fn lookup_pci_vendor(pci_ids: &str, vendor_id: &str) -> (r: Option<String>)
    ensures
        opt_text(r) == pci_vendor(text_lines(pci_ids@), vendor_id@),
{
    let lines = lines_of(pci_ids);
    let ghost all = text_lines(pci_ids@);
    let n = lines.len();
    let mut i: usize = 0;
    assert(all.subrange(0, n as int) =~= all);
    while i < n
        invariant
            i <= n,
            n == lines@.len(),
            n == all.len(),
            all == text_lines(pci_ids@),
            forall|k: int| 0 <= k < n ==> #[trigger] lines@[k]@ == all[k],
            pci_vendor(all, vendor_id@) == pci_vendor(all.subrange(i as int, n as int), vendor_id@),
        decreases n - i,
    {
        proof {
            assert(all.subrange(i as int, n as int).drop_first() =~= all.subrange(i + 1, n as int));
            assert(all.subrange(i as int, n as int)[0] == lines@[i as int]@);
        }
        if is_id_line(&lines[i], vendor_id) {
            return Some(name_after_id_exec(&lines[i]));
        }
        i = i + 1;
    }
    None
}

/// The device name that the `pci.ids` text `pci_ids` gives for `device_id`
/// of `vendor_id`.
pub fn lookup_pci_device(pci_ids: &str, vendor_id: &str, device_id: &str) -> (r: Option<String>)
    ensures
        opt_text(r) == pci_device(text_lines(pci_ids@), vendor_id@, device_id@, false),
{
    proof {
        reveal_strlit("\t");
        reveal_strlit("\t\t");
        reveal_strlit("#");
        assert("\t"@ =~= seq!['\t']);
        assert("\t\t"@ =~= seq!['\t', '\t']);
        assert("#"@ =~= seq!['#']);
    }
    let lines = lines_of(pci_ids);
    let ghost all = text_lines(pci_ids@);
    let n = lines.len();
    let mut in_vendor = false;
    let mut i: usize = 0;
    assert(all.subrange(0, n as int) =~= all);
    while i < n
        invariant
            i <= n,
            n == lines@.len(),
            n == all.len(),
            all == text_lines(pci_ids@),
            "\t"@ == seq!['\t'],
            "\t\t"@ == seq!['\t', '\t'],
            "#"@ == seq!['#'],
            forall|k: int| 0 <= k < n ==> #[trigger] lines@[k]@ == all[k],
            pci_device(all, vendor_id@, device_id@, false) == pci_device(
                all.subrange(i as int, n as int),
                vendor_id@,
                device_id@,
                in_vendor,
            ),
        decreases n - i,
    {
        proof {
            assert(all.subrange(i as int, n as int).drop_first() =~= all.subrange(i + 1, n as int));
            assert(all.subrange(i as int, n as int)[0] == lines@[i as int]@);
        }
        let line = &lines[i];
        if is_id_line(line, vendor_id) {
            in_vendor = true;
        } else {
            let tab = crate::helpers::starts_with(line.as_slice(), "\t");
            if in_vendor && !tab && line.len() > 0 && !crate::helpers::starts_with(line.as_slice(), "#") {
                return None;
            }
            if in_vendor && tab && !crate::helpers::starts_with(line.as_slice(), "\t\t") {
                let t = crate::helpers::strip_leading(line, '\t');
                if is_id_line(&t, device_id) {
                    return Some(name_after_id_exec(&t));
                }
            }
        }
        i = i + 1;
    }
    None
}


/// The pieces of `s` between the characters `sep`, as `split(sep)` gives them.
pub open spec fn pieces(s: Seq<char>, sep: char) -> Seq<Seq<char>>
    decreases s.len(),
{
    if s.len() == 0 {
        seq![Seq::empty()]
    } else {
        let p = pieces(s.drop_last(), sep);
        if s.last() == sep {
            p.push(Seq::empty())
        } else {
            p.update(p.len() - 1, p.last().push(s.last()))
        }
    }
}

/// The double-quoted fields of an `lspci -mm` line: the pieces at odd places
/// when the line is split at double quotes.
pub open spec fn quoted_fields(line: Seq<char>) -> Seq<Seq<char>> {
    let p = pieces(line, '"');
    Seq::new(p.len() / 2, |i: int| p[2 * i + 1])
}

/// A vendor's short name: AMD, NVIDIA or Intel where the name holds it.
pub open spec fn short_vendor(v: Seq<char>) -> Seq<char> {
    if has_sub(v, "Advanced Micro Devices"@) || has_sub(v, "AMD"@) {
        "AMD"@
    } else if has_sub(v, "NVIDIA"@) {
        "NVIDIA"@
    } else if has_sub(v, "Intel"@) {
        "Intel"@
    } else {
        v
    }
}

/// The GPU that a display-controller line of `lspci -mm` names: short vendor
/// and device; none for processor or integrated graphics, or a line with fewer
/// than three quoted fields.
pub open spec fn lspci_gpu_name(line: Seq<char>) -> Option<Seq<char>> {
    let f = quoted_fields(line);
    if f.len() >= 3 && !has_sub(f[2], "Processor"@) && !has_sub(f[2], "Integrated"@) {
        Some(short_vendor(f[1]) + seq![' '] + f[2])
    } else {
        None
    }
}

fn split_quotes(line: &Vec<char>) -> (r: Vec<Vec<char>>)
    ensures
        r@.len() == pieces(line@, '"').len(),
        forall|k: int| 0 <= k < r@.len() ==> #[trigger] r@[k]@ == pieces(line@, '"')[k],
{
    let n = line.len();
    let ghost s = line@;
    let mut done: Vec<Vec<char>> = Vec::new();
    let mut cur: Vec<char> = Vec::new();
    assert(s.take(0) =~= Seq::<char>::empty());
    let mut i: usize = 0;
    while i < n
        invariant
            i <= n,
            n == s.len(),
            s == line@,
            pieces(s.take(i as int), '"').len() == done@.len() + 1,
            forall|k: int| 0 <= k < done@.len() ==> #[trigger] done@[k]@ == pieces(s.take(i as int), '"')[k],
            pieces(s.take(i as int), '"')[done@.len() as int] == cur@,
        decreases n - i,
    {
        let ghost s1 = s.take(i + 1);
        assert(s1.drop_last() =~= s.take(i as int));
        assert(s1.last() == s[i as int]);
        if line[i] == '"' {
            done.push(cur);
            cur = Vec::new();
        } else {
            cur.push(line[i]);
        }
        i = i + 1;
    }
    assert(s.take(n as int) =~= s);
    done.push(cur);
    done
}

fn vendor_short_name(v: &Vec<char>) -> (r: String)
    ensures
        r@ == short_vendor(v@),
{
    proof {
        reveal_strlit("AMD");
        reveal_strlit("NVIDIA");
        reveal_strlit("Intel");
    }
    if crate::helpers::contains_chars(v, "Advanced Micro Devices") || crate::helpers::contains_chars(v, "AMD") {
        "AMD".to_string()
    } else if crate::helpers::contains_chars(v, "NVIDIA") {
        "NVIDIA".to_string()
    } else if crate::helpers::contains_chars(v, "Intel") {
        "Intel".to_string()
    } else {
        crate::helpers::string_of(v.as_slice())
    }
}

/// The GPU that one display-controller line of `lspci -mm` names.
pub fn lspci_gpu(line: &str) -> (r: Option<String>)
    ensures
        opt_text(r) == lspci_gpu_name(line@),
{
    let cs = crate::helpers::chars_of(line);
    let p = split_quotes(&cs);
    let ghost f = quoted_fields(line@);
    if p.len() / 2 < 3 {
        return None;
    }
    let vendor = &p[3];
    let device = &p[5];
    assert(f[1] == vendor@ && f[2] == device@);
    if crate::helpers::contains_chars(device, "Processor") || crate::helpers::contains_chars(device, "Integrated") {
        return None;
    }
    let mut name = vendor_short_name(vendor);
    push_char(&mut name, ' ');
    name.append(crate::helpers::string_of(device.as_slice()).as_str());
    Some(name)
}

} // verus!
