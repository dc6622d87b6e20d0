//! Visible width of text that may embed ANSI SGR escape sequences.
use vstd::prelude::*;

verus! {

/// The escape character that opens an ANSI sequence.
pub const ESC: char = '\x1b';

/// Whether scanning `s` from its start leaves the scanner inside an escape
/// sequence: an escape character opens one, the next `m` closes it.
pub open spec fn escape_open(s: Seq<char>) -> bool
    decreases s.len(),
{
    if s.len() == 0 {
        false
    } else {
        let c = s.last();
        if c == ESC {
            true
        } else if escape_open(s.drop_last()) {
            c != 'm'
        } else {
            false
        }
    }
}

/// Number of terminal columns that `s` occupies: every character outside an
/// escape sequence counts as one column, the sequences themselves as none.
pub open spec fn visible_width(s: Seq<char>) -> nat
    decreases s.len(),
{
    if s.len() == 0 {
        0
    } else {
        let c = s.last();
        let rest = visible_width(s.drop_last());
        if c == ESC || escape_open(s.drop_last()) {
            rest
        } else {
            rest + 1
        }
    }
}

/// Text with the escape sequences removed: the characters that `visible_width` counts.
pub open spec fn strip_ansi(s: Seq<char>) -> Seq<char>
    decreases s.len(),
{
    if s.len() == 0 {
        seq![]
    } else {
        let c = s.last();
        let rest = strip_ansi(s.drop_last());
        if c == ESC || escape_open(s.drop_last()) {
            rest
        } else {
            rest.push(c)
        }
    }
}

/// A UTF-8 encoding is never shorter than the number of characters it encodes.
pub proof fn lemma_encoding_not_shorter(s: Seq<char>)
    ensures
        vstd::utf8::encode_utf8(s).len() >= s.len(),
    decreases s.len(),
{
    if s.len() > 0 {
        lemma_encoding_not_shorter(s.drop_first());
    }
}

/// Visible column count of `text`: ANSI sequences (escape up to and including
/// the next `m`) take no room, every other character takes one column; the
/// same count as a scan of its UTF-8 bytes that counts each byte starting a
/// character outside the sequences.
pub fn visible_len(text: &str) -> (n: usize)
    ensures
        n == visible_width(text@),
        n == bytes_width(vstd::utf8::encode_utf8(text@)),
{
    proof {
        lemma_width_matches_bytes(text@);
    }
    let byte_len = text.as_bytes().len();
    proof {
        lemma_encoding_not_shorter(text@);
    }
    let ghost s = text@;
    let mut count: usize = 0;
    let mut inside_escape = false;
    let mut chars = text.chars();
    for c in it: chars
        invariant
            it.seq() == s,
            s.len() <= byte_len,
            count <= it.index(),
            count == visible_width(s.take(it.index() as int)),
            inside_escape == escape_open(s.take(it.index() as int)),
    {
        let ghost i = it.index() as int;
        assert(s.take(i + 1).drop_last() =~= s.take(i));
        if c == ESC {
            inside_escape = true;
        } else if inside_escape {
            if c == 'm' {
                inside_escape = false;
            }
        } else {
            count = count + 1;
        }
    }
    assert(s.take(s.len() as int) =~= s);
    count
}


/// Text without an escape character is measured by its length and never
/// leaves an escape sequence open.
pub proof fn lemma_plain_width(s: Seq<char>)
    requires
        !s.contains(ESC),
    ensures
        visible_width(s) == s.len(),
        !escape_open(s),
    decreases s.len(),
{
    if s.len() > 0 {
        assert(s.drop_last().len() < s.len());
        assert(!s.drop_last().contains(ESC)) by {
            if s.drop_last().contains(ESC) {
                let i = choose|i: int| 0 <= i < s.drop_last().len() && s.drop_last()[i] == ESC;
                assert(s[i] == ESC);
            }
        }
        assert(s[s.len() - 1] != ESC);
        lemma_plain_width(s.drop_last());
    }
}

/// Measuring a concatenation adds the widths of its parts, provided the first
/// part closes its escape sequences or the second one opens a new one.
pub proof fn lemma_width_append(a: Seq<char>, b: Seq<char>)
    requires
        !escape_open(a) || (b.len() > 0 && b[0] == ESC),
    ensures
        visible_width(a + b) == visible_width(a) + visible_width(b),
        escape_open(a + b) == escape_open(b),
    decreases b.len(),
{
    if b.len() == 0 {
        assert(a + b =~= a);
    } else {
        let ab = a + b;
        assert(ab.drop_last() =~= a + b.drop_last());
        assert(ab.last() == b.last());
        if b.len() == 1 {
            assert(b.drop_last() =~= Seq::<char>::empty());
            assert(a + b.drop_last() =~= a);
        } else {
            assert(b.drop_last()[0] == b[0]);
            lemma_width_append(a, b.drop_last());
        }
    }
}

/// An escape character, characters that neither close nor reopen the
/// sequence, then `m`: a sequence of no width that leaves nothing open.
pub proof fn lemma_sequence_width(body: Seq<char>)
    requires
        !body.contains(ESC),
        !body.contains('m'),
    ensures
        visible_width(seq![ESC] + body + seq!['m']) == 0,
        !escape_open(seq![ESC] + body + seq!['m']),
{
    lemma_open_sequence(body);
    let s = seq![ESC] + body;
    assert((s + seq!['m']).drop_last() =~= s);
}

proof fn lemma_open_sequence(body: Seq<char>)
    requires
        !body.contains(ESC),
        !body.contains('m'),
    ensures
        visible_width(seq![ESC] + body) == 0,
        escape_open(seq![ESC] + body),
    decreases body.len(),
{
    let s = seq![ESC] + body;
    if body.len() == 0 {
        assert(s.drop_last() =~= Seq::<char>::empty());
        assert(s.last() == ESC);
        assert(visible_width(s.drop_last()) == 0);
    } else {
        assert(s.last() == body.last());
        assert(s.drop_last() =~= seq![ESC] + body.drop_last());
        assert(body[body.len() - 1] != ESC && body[body.len() - 1] != 'm');
        assert(!body.drop_last().contains(ESC)) by {
            if body.drop_last().contains(ESC) {
                let i = choose|i: int| 0 <= i < body.drop_last().len() && body.drop_last()[i] == ESC;
                assert(body[i] == ESC);
            }
        }
        assert(!body.drop_last().contains('m')) by {
            if body.drop_last().contains('m') {
                let i = choose|i: int| 0 <= i < body.drop_last().len() && body.drop_last()[i] == 'm';
                assert(body[i] == 'm');
            }
        }
        lemma_open_sequence(body.drop_last());
    }
}


proof fn lemma_strip_shape(s: Seq<char>)
    ensures
        strip_ansi(s).len() == visible_width(s),
        !strip_ansi(s).contains(ESC),
    decreases s.len(),
{
    if s.len() > 0 {
        lemma_strip_shape(s.drop_last());
        let r = strip_ansi(s);
        let p = strip_ansi(s.drop_last());
        if r.contains(ESC) {
            let i = choose|i: int| 0 <= i < r.len() && r[i] == ESC;
            if i < p.len() {
                assert(p[i] == ESC);
            }
        }
    }
}

/// Removing the escape sequences does not change the visible width.
pub proof fn lemma_escape_transparency(s: Seq<char>)
    ensures
        visible_width(s) == visible_width(strip_ansi(s)),
{
    lemma_strip_shape(s);
    lemma_plain_width(strip_ansi(s));
}

/// ASCII text without escape characters is as wide as its UTF-8 encoding is long.
pub proof fn lemma_ascii_width(s: Seq<char>)
    requires
        !s.contains(ESC),
        vstd::utf8::is_ascii_chars(s),
    ensures
        visible_width(s) == vstd::utf8::encode_utf8(s).len(),
{
    lemma_plain_width(s);
    vstd::utf8::is_ascii_chars_encode_utf8(s);
}


/// Whether scanning the bytes `b` leaves the scanner inside an escape
/// sequence: the byte 0x1B opens one, the next `m` closes it.
pub open spec fn bytes_escape_open(b: Seq<u8>) -> bool
    decreases b.len(),
{
    if b.len() == 0 {
        false
    } else if b.last() == 0x1b {
        true
    } else if bytes_escape_open(b.drop_last()) {
        b.last() != 0x6d
    } else {
        false
    }
}

/// Columns that the encoded text `b` occupies, counted byte by byte: a byte
/// outside an escape sequence counts when it starts a character, that is when
/// it is not a UTF-8 continuation byte.
pub open spec fn bytes_width(b: Seq<u8>) -> nat
    decreases b.len(),
{
    if b.len() == 0 {
        0
    } else {
        let rest = bytes_width(b.drop_last());
        let x = b.last();
        if x == 0x1b || bytes_escape_open(b.drop_last()) || vstd::utf8::is_continuation_byte(x) {
            rest
        } else {
            rest + 1
        }
    }
}

proof fn lemma_encode_push(p: Seq<char>, c: char)
    ensures
        vstd::utf8::encode_utf8(p.push(c)) == vstd::utf8::encode_utf8(p) + vstd::utf8::encode_scalar(
            c as u32,
        ),
    decreases p.len(),
{
    if p.len() == 0 {
        assert(p.push(c).drop_first() =~= Seq::<char>::empty());
        assert(p.push(c)[0] == c);
        assert(vstd::utf8::encode_utf8(Seq::<char>::empty()) =~= Seq::<u8>::empty());
        assert(vstd::utf8::encode_utf8(p) =~= Seq::<u8>::empty());
        assert(vstd::utf8::encode_utf8(p.push(c)) =~= vstd::utf8::encode_scalar(c as u32)
            + vstd::utf8::encode_utf8(Seq::<char>::empty()));
    } else {
        assert(p.push(c).drop_first() =~= p.drop_first().push(c));
        lemma_encode_push(p.drop_first(), c);
        assert(p.push(c)[0] == p[0]);
        assert(vstd::utf8::encode_utf8(p.push(c)) =~= vstd::utf8::encode_utf8(p)
            + vstd::utf8::encode_scalar(c as u32));
    }
}

proof fn lemma_lead_bytes(v: u32)
    ensures
        0x80 <= v <= 0x7FF ==> 0xC0 <= (0xC0u8 | ((v >> 6u32) & 0x1Fu32) as u8) <= 0xDF,
        0x800 <= v <= 0xFFFF ==> 0xE0 <= (0xE0u8 | ((v >> 12u32) & 0x0Fu32) as u8) <= 0xEF,
        0x10000 <= v <= 0x10FFFF ==> 0xF0 <= (0xF0u8 | ((v >> 18u32) & 0x7u32) as u8) <= 0xF7,
        0x80 <= (0x80u8 | (v & 0x3Fu32) as u8) <= 0xBF,
        0x80 <= (0x80u8 | ((v >> 6u32) & 0x3Fu32) as u8) <= 0xBF,
        0x80 <= (0x80u8 | ((v >> 12u32) & 0x3Fu32) as u8) <= 0xBF,
        v <= 0x7F ==> (v & 0x7Fu32) as u8 == v as u8 && v as u8 as u32 == v,
{
    assert(0x80 <= v <= 0x7FF ==> 0xC0 <= (0xC0u8 | ((v >> 6u32) & 0x1Fu32) as u8) <= 0xDF)
        by (bit_vector);
    assert(0x800 <= v <= 0xFFFF ==> 0xE0 <= (0xE0u8 | ((v >> 12u32) & 0x0Fu32) as u8) <= 0xEF)
        by (bit_vector);
    assert(0x10000 <= v <= 0x10FFFF ==> 0xF0 <= (0xF0u8 | ((v >> 18u32) & 0x7u32) as u8) <= 0xF7)
        by (bit_vector);
    assert(0x80 <= (0x80u8 | (v & 0x3Fu32) as u8) <= 0xBF) by (bit_vector);
    assert(0x80 <= (0x80u8 | ((v >> 6u32) & 0x3Fu32) as u8) <= 0xBF) by (bit_vector);
    assert(0x80 <= (0x80u8 | ((v >> 12u32) & 0x3Fu32) as u8) <= 0xBF) by (bit_vector);
    assert(v <= 0x7F ==> (v & 0x7Fu32) as u8 == v as u8 && v as u8 as u32 == v) by (bit_vector);
}

/// A byte that neither opens nor closes a sequence and does not count.
proof fn lemma_quiet_byte(x: Seq<u8>, b: u8)
    requires
        0x80 <= b <= 0xbf,
    ensures
        bytes_width(x.push(b)) == bytes_width(x),
        bytes_escape_open(x.push(b)) == bytes_escape_open(x),
{
    assert(x.push(b).drop_last() =~= x);
}

/// A byte that starts a character of several bytes.
proof fn lemma_lead_byte(x: Seq<u8>, b: u8)
    requires
        0xc0 <= b,
    ensures
        bytes_width(x.push(b)) == bytes_width(x) + (if bytes_escape_open(x) {
            0nat
        } else {
            1nat
        }),
        bytes_escape_open(x.push(b)) == bytes_escape_open(x),
{
    assert(x.push(b).drop_last() =~= x);
}

/// The character-level measure agrees with the byte-by-byte scan of the
/// UTF-8 encoding.
pub proof fn lemma_width_matches_bytes(s: Seq<char>)
    ensures
        bytes_width(vstd::utf8::encode_utf8(s)) == visible_width(s),
        bytes_escape_open(vstd::utf8::encode_utf8(s)) == escape_open(s),
    decreases s.len(),
{
    if s.len() > 0 {
        let p = s.drop_last();
        let c = s.last();
        assert(p.push(c) =~= s);
        lemma_width_matches_bytes(p);
        lemma_encode_push(p, c);
        let x = vstd::utf8::encode_utf8(p);
        let v = c as u32;
        vstd::utf8::char_is_scalar(c);
        lemma_lead_bytes(v);
        if vstd::utf8::has_width_1_encoding(v) {
            let b = vstd::utf8::leading_byte_width_1(v);
            assert(vstd::utf8::encode_scalar(v) == seq![b]);
            assert((x + seq![b]).drop_last() =~= x);
            assert((x + seq![b]).last() == b);
            assert(b == 0x1b <==> c == ESC) by {
                vstd::utf8::char_u32_cast(c, v);
                vstd::utf8::char_u32_cast(ESC, 0x1b);
            }
            assert(b == 0x6d <==> c == 'm') by {
                vstd::utf8::char_u32_cast(c, v);
                vstd::utf8::char_u32_cast('m', 0x6d);
            }
        } else {
            assert(c != ESC && c != 'm');
            if vstd::utf8::has_width_2_encoding(v) {
                let y = vstd::utf8::encode_scalar(v);
                lemma_lead_byte(x, y[0]);
                lemma_quiet_byte(x.push(y[0]), y[1]);
                assert(x + y =~= x.push(y[0]).push(y[1]));
            } else if vstd::utf8::has_width_3_encoding(v) {
                let y = vstd::utf8::encode_scalar(v);
                lemma_lead_byte(x, y[0]);
                lemma_quiet_byte(x.push(y[0]), y[1]);
                lemma_quiet_byte(x.push(y[0]).push(y[1]), y[2]);
                assert(x + y =~= x.push(y[0]).push(y[1]).push(y[2]));
            } else {
                let y = vstd::utf8::encode_scalar(v);
                lemma_lead_byte(x, y[0]);
                lemma_quiet_byte(x.push(y[0]), y[1]);
                lemma_quiet_byte(x.push(y[0]).push(y[1]), y[2]);
                lemma_quiet_byte(x.push(y[0]).push(y[1]).push(y[2]), y[3]);
                assert(x + y =~= x.push(y[0]).push(y[1]).push(y[2]).push(y[3]));
            }
        }
    }
}

} // verus!
