//! Colouring of text with 24-bit foreground colours from the palette.
use crate::configloader::ColorConfig;
use crate::width::{
    ESC, escape_open, lemma_sequence_width, lemma_width_append, visible_width,
};
use tintify::TintColorize;
use vstd::prelude::*;

verus! {

/// The decimal digit `d`, for `d < 10`.
pub open spec fn digit(d: nat) -> char {
    seq!['0', '1', '2', '3', '4', '5', '6', '7', '8', '9'][d as int]
}

/// Decimal notation of `n`, without leading zeros.
pub open spec fn decimal(n: nat) -> Seq<char>
    decreases n,
{
    if n < 10 {
        seq![digit(n)]
    } else {
        decimal(n / 10).push(digit(n % 10))
    }
}

/// The code that selects the 24-bit foreground colour `rgb`.
pub open spec fn foreground_code(rgb: (u8, u8, u8)) -> Seq<char> {
    seq![ESC, '[', '3', '8', ';', '2', ';'] + decimal(rgb.0 as nat) + seq![';'] + decimal(
        rgb.1 as nat,
    ) + seq![';'] + decimal(rgb.2 as nat) + seq!['m']
}

/// The code that restores the default foreground colour.
pub open spec fn foreground_reset() -> Seq<char> {
    seq![ESC, '[', '3', '9', 'm']
}

/// `text` drawn in the foreground colour `rgb`.
pub open spec fn painted(text: Seq<char>, rgb: (u8, u8, u8)) -> Seq<char> {
    foreground_code(rgb) + text + foreground_reset()
}

/// Relies on tintify's `TintColorize::truecolor` and the `Display` of the value
/// it returns: the 24-bit foreground code, the text, then the foreground reset.
#[verifier::external_body]
fn truecolor(text: &str, rgb: (u8, u8, u8)) -> (r: String)
    ensures
        r@ == painted(text@, rgb),
{
    text.truecolor(rgb.0, rgb.1, rgb.2).to_string()
}

/// `text` in the border colour.
pub fn color_border(colors: &ColorConfig, text: &str) -> (r: String)
    ensures
        r@ == painted(text@, colors.border),
{
    truecolor(text, colors.border)
}

/// `text` in the title colour.
pub fn color_title(colors: &ColorConfig, text: &str) -> (r: String)
    ensures
        r@ == painted(text@, colors.title),
{
    truecolor(text, colors.title)
}

/// `text` in the key colour.
pub fn color_key(colors: &ColorConfig, text: &str) -> (r: String)
    ensures
        r@ == painted(text@, colors.key),
{
    truecolor(text, colors.key)
}

/// `text` in the value colour.
pub fn color_value(colors: &ColorConfig, text: &str) -> (r: String)
    ensures
        r@ == painted(text@, colors.value),
{
    truecolor(text, colors.value)
}

proof fn lemma_decimal_digits(n: nat)
    ensures
        !decimal(n).contains(ESC),
        !decimal(n).contains('m'),
    decreases n,
{
    let ds = seq!['0', '1', '2', '3', '4', '5', '6', '7', '8', '9'];
    assert(!ds.contains(ESC) && !ds.contains('m')) by {
        assert(forall|i: int| 0 <= i < 10 ==> ds[i] != ESC && ds[i] != 'm');
    }
    if n >= 10 {
        lemma_decimal_digits(n / 10);
        let d = decimal(n);
        assert(forall|i: int| 0 <= i < d.len() - 1 ==> d[i] == decimal(n / 10)[i]);
        assert(!d.contains(ESC) && !d.contains('m')) by {
            if d.contains(ESC) || d.contains('m') {
                let i = choose|i: int| 0 <= i < d.len() && (d[i] == ESC || d[i] == 'm');
                if i < d.len() - 1 {
                    assert(decimal(n / 10).contains(d[i]));
                }
            }
        }
    }
}

/// Colouring adds no visible width and leaves no escape sequence open.
pub proof fn lemma_painted_width(text: Seq<char>, rgb: (u8, u8, u8))
    ensures
        visible_width(painted(text, rgb)) == visible_width(text),
        !escape_open(painted(text, rgb)),
{
    lemma_decimal_digits(rgb.0 as nat);
    lemma_decimal_digits(rgb.1 as nat);
    lemma_decimal_digits(rgb.2 as nat);
    let body = seq!['[', '3', '8', ';', '2', ';'] + decimal(rgb.0 as nat) + seq![';'] + decimal(
        rgb.1 as nat,
    ) + seq![';'] + decimal(rgb.2 as nat);
    assert(!body.contains(ESC) && !body.contains('m')) by {
        if body.contains(ESC) || body.contains('m') {
            let i = choose|i: int| 0 <= i < body.len() && (body[i] == ESC || body[i] == 'm');
            let l0 = decimal(rgb.0 as nat).len() as int;
            let l1 = decimal(rgb.1 as nat).len() as int;
            if i < 6 {
            } else if i < 6 + l0 {
                assert(decimal(rgb.0 as nat).contains(body[i]));
            } else if i == 6 + l0 {
            } else if i < 7 + l0 + l1 {
                assert(decimal(rgb.1 as nat)[i - 7 - l0] == body[i]);
                assert(decimal(rgb.1 as nat).contains(body[i]));
            } else if i == 7 + l0 + l1 {
            } else {
                assert(decimal(rgb.2 as nat)[i - 8 - l0 - l1] == body[i]);
                assert(decimal(rgb.2 as nat).contains(body[i]));
            }
        }
    }
    lemma_sequence_width(body);
    let code = foreground_code(rgb);
    assert(code =~= seq![ESC] + body + seq!['m']);
    lemma_width_append(code, text);
    let reset_body = seq!['[', '3', '9'];
    assert(!reset_body.contains(ESC) && !reset_body.contains('m')) by {
        assert(forall|i: int| 0 <= i < 3 ==> reset_body[i] != ESC && reset_body[i] != 'm');
    }
    lemma_sequence_width(reset_body);
    assert(foreground_reset() =~= seq![ESC] + reset_body + seq!['m']);
    lemma_width_append(code + text, foreground_reset());
}

} // verus!
