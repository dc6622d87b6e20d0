//! What every box satisfies: uniform row width, its sizing, its centring.
use crate::colorcontrol::{lemma_painted_width, painted};
use crate::configloader::ColorConfig;
use crate::renderer::{
    blank_row, border, bottom_border, box_inner_width, box_rows, content_row, left_pad, max_width,
    nat_max, rep, right_pad, rule, sat_sub, side, title_len, top_border, top_padding,
    bottom_padding, lemma_max_width_bound, layout_for, layout_text, lines_text, side_by_side_text,
    stack_rows, LayoutChoice, Section,
};
use crate::width::{ESC, escape_open, lemma_plain_width, lemma_width_append, visible_width};
use vstd::prelude::*;

verus! {

/// Widths add up over a concatenation of parts that close their sequences.
proof fn lemma_cat(a: Seq<char>, b: Seq<char>)
    requires
        !escape_open(a),
        !escape_open(b),
    ensures
        visible_width(a + b) == visible_width(a) + visible_width(b),
        !escape_open(a + b),
{
    lemma_width_append(a, b);
}

/// A run of one plain character is as wide as it is long.
proof fn lemma_run(ch: char, n: nat)
    requires
        ch != ESC,
    ensures
        visible_width(rep(seq![ch], n)) == n,
        !escape_open(rep(seq![ch], n)),
    decreases n,
{
    assert(!rep(seq![ch], n).contains(ESC)) by {
        lemma_run_plain(ch, n);
    }
    lemma_plain_width(rep(seq![ch], n));
    lemma_run_len(ch, n);
}

proof fn lemma_run_len(ch: char, n: nat)
    ensures
        rep(seq![ch], n).len() == n,
    decreases n,
{
    if n > 0 {
        lemma_run_len(ch, (n - 1) as nat);
    }
}

proof fn lemma_run_plain(ch: char, n: nat)
    requires
        ch != ESC,
    ensures
        !rep(seq![ch], n).contains(ESC),
    decreases n,
{
    if n > 0 {
        lemma_run_plain(ch, (n - 1) as nat);
        let r = rep(seq![ch], n);
        let p = rep(seq![ch], (n - 1) as nat);
        assert(r == p + seq![ch]);
        if r.contains(ESC) {
            let i = choose|i: int| 0 <= i < r.len() && r[i] == ESC;
            if i < p.len() {
                assert(p[i] == ESC);
            }
        }
    }
}

proof fn lemma_single(ch: char)
    requires
        ch != ESC,
    ensures
        visible_width(seq![ch]) == 1,
        !escape_open(seq![ch]),
{
    let s = seq![ch];
    assert(!s.contains(ESC)) by {
        if s.contains(ESC) {
            let i = choose|i: int| 0 <= i < s.len() && s[i] == ESC;
            assert(s[i] == ch);
        }
    }
    lemma_plain_width(s);
}

proof fn lemma_side(c: ColorConfig)
    ensures
        visible_width(side(c)) == 1,
        !escape_open(side(c)),
{
    lemma_single('│');
    lemma_painted_width(seq!['│'], c.border);
}

proof fn lemma_rule(c: ColorConfig, n: nat)
    ensures
        visible_width(rule(c, n)) == n,
        !escape_open(rule(c, n)),
{
    lemma_run('─', n);
    lemma_painted_width(rep(seq!['─'], n), c.border);
}

/// A blank interior row is its interior width plus four columns wide.
pub proof fn lemma_blank_row_width(c: ColorConfig, inner: nat)
    ensures
        visible_width(blank_row(c, inner)) == inner + 4,
        !escape_open(blank_row(c, inner)),
{
    lemma_side(c);
    lemma_run(' ', inner + 2);
    lemma_cat(side(c), rep(seq![' '], inner + 2));
    lemma_cat(side(c) + rep(seq![' '], inner + 2), side(c));
}

/// A content row is its interior width plus four columns wide when its line
/// fits and leaves no escape sequence open.
pub proof fn lemma_content_row_width(c: ColorConfig, line: Seq<char>, inner: nat, center: bool)
    requires
        visible_width(line) <= inner,
        !escape_open(line),
    ensures
        visible_width(content_row(c, line, inner, center)) == inner + 4,
        !escape_open(content_row(c, line, inner, center)),
{
    let w = visible_width(line);
    let l = left_pad(inner, w, center);
    let r = right_pad(inner, w, center);
    lemma_side(c);
    lemma_single(' ');
    lemma_run(' ', l);
    lemma_run(' ', r);
    let part1 = side(c) + seq![' '];
    lemma_cat(side(c), seq![' ']);
    let part2 = part1 + rep(seq![' '], l);
    lemma_cat(part1, rep(seq![' '], l));
    let part3 = part2 + line;
    lemma_cat(part2, line);
    let part4 = part3 + rep(seq![' '], r);
    lemma_cat(part3, rep(seq![' '], r));
    let part5 = part4 + seq![' '];
    lemma_cat(part4, seq![' ']);
    lemma_cat(part5, side(c));
}

/// The top border is its interior width plus four columns wide when the title
/// fits and holds no escape character.
pub proof fn lemma_top_border_width(c: ColorConfig, inner: nat, title: Option<Seq<char>>)
    requires
        title_len(title) <= inner,
        title matches Some(t) ==> !t.contains(ESC),
    ensures
        visible_width(top_border(c, inner, title)) == inner + 4,
{
    let tl = border(c, seq!['╭']);
    let tr = border(c, seq!['╮']);
    lemma_single('╭');
    lemma_single('╮');
    lemma_painted_width(seq!['╭'], c.border);
    lemma_painted_width(seq!['╮'], c.border);
    match title {
        None => {
            lemma_rule(c, inner + 2);
            lemma_cat(tl, rule(c, inner + 2));
            lemma_cat(tl + rule(c, inner + 2), tr);
        },
        Some(t) => {
            let dashes = sat_sub(inner, t.len());
            let left = dashes / 2;
            let right = (dashes - left) as nat;
            lemma_rule(c, left);
            lemma_rule(c, right);
            lemma_single(' ');
            lemma_plain_width(t);
            lemma_painted_width(t, c.title);
            let part1 = tl + rule(c, left);
            lemma_cat(tl, rule(c, left));
            let part2 = part1 + seq![' '];
            lemma_cat(part1, seq![' ']);
            let part3 = part2 + painted(t, c.title);
            lemma_cat(part2, painted(t, c.title));
            let part4 = part3 + seq![' '];
            lemma_cat(part3, seq![' ']);
            let part5 = part4 + rule(c, right);
            lemma_cat(part4, rule(c, right));
            lemma_cat(part5, tr);
        },
    }
}

/// The bottom border is its interior width plus four columns wide.
pub proof fn lemma_bottom_border_width(c: ColorConfig, inner: nat)
    ensures
        visible_width(bottom_border(c, inner)) == inner + 4,
{
    let bl = border(c, seq!['╰']);
    let br = border(c, seq!['╯']);
    lemma_single('╰');
    lemma_single('╯');
    lemma_painted_width(seq!['╰'], c.border);
    lemma_painted_width(seq!['╯'], c.border);
    lemma_rule(c, inner + 2);
    lemma_cat(bl, rule(c, inner + 2));
    lemma_cat(bl + rule(c, inner + 2), br);
}

/// Every row of a box has the same visible width, its interior width plus two
/// borders and two margins, when no content line leaves an escape sequence
/// open and the title holds no escape character.
pub proof fn lemma_box_rows_uniform_width(
    c: ColorConfig,
    lines: Seq<Seq<char>>,
    title: Option<Seq<char>>,
    target_width: Option<usize>,
    target_height: Option<usize>,
    center: bool,
)
    requires
        forall|j: int| 0 <= j < lines.len() ==> !escape_open(#[trigger] lines[j]),
        title matches Some(t) ==> !t.contains(ESC),
    ensures
        forall|j: int|
            0 <= j < box_rows(c, lines, title, target_width, target_height, center).len()
                ==> visible_width(
                #[trigger] box_rows(c, lines, title, target_width, target_height, center)[j],
            ) == box_inner_width(lines, title, target_width) + 4,
{
    let inner = box_inner_width(lines, title, target_width);
    let rows = box_rows(c, lines, title, target_width, target_height, center);
    let top = top_padding(lines.len(), target_height);
    let bottom = bottom_padding(lines.len(), target_height);
    let mapped = lines.map_values(|l: Seq<char>| content_row(c, l, inner, center));
    lemma_top_border_width(c, inner, title);
    lemma_bottom_border_width(c, inner);
    lemma_blank_row_width(c, inner);
    assert forall|j: int| 0 <= j < rows.len() implies visible_width(#[trigger] rows[j]) == inner
        + 4 by {
        if j == 0 {
        } else if j < 1 + top {
            assert(rows[j] == blank_row(c, inner));
        } else if j < 1 + top + lines.len() {
            let k = j - 1 - top;
            assert(rows[j] == mapped[k]);
            lemma_max_width_bound(lines, k);
            lemma_content_row_width(c, lines[k], inner, center);
        } else if j < 1 + top + lines.len() + bottom {
            assert(rows[j] == blank_row(c, inner));
        } else {
            assert(rows[j] == bottom_border(c, inner));
        }
    }
}

/// A box is never narrower inside than the width asked for, nor than any of
/// its lines or its title.
pub proof fn lemma_box_sizing(
    lines: Seq<Seq<char>>,
    title: Option<Seq<char>>,
    target_width: Option<usize>,
)
    ensures
        target_width matches Some(w) ==> box_inner_width(lines, title, target_width) >= w,
        box_inner_width(lines, title, target_width) >= max_width(lines),
        box_inner_width(lines, title, target_width) >= title_len(title),
        forall|j: int|
            0 <= j < lines.len() ==> visible_width(#[trigger] lines[j]) <= box_inner_width(
                lines,
                title,
                target_width,
            ),
{
    assert forall|j: int| 0 <= j < lines.len() implies visible_width(#[trigger] lines[j])
        <= box_inner_width(lines, title, target_width) by {
        lemma_max_width_bound(lines, j);
    }
}

/// In a box with centred content, the spaces left and right of each content
/// line differ by at most one, the odd one going right.
pub proof fn lemma_centering_symmetry(
    c: ColorConfig,
    lines: Seq<Seq<char>>,
    title: Option<Seq<char>>,
    target_width: Option<usize>,
    target_height: Option<usize>,
)
    ensures
        forall|j: int|
            #![trigger lines[j]]
            0 <= j < lines.len() ==> {
                let inner = box_inner_width(lines, title, target_width);
                let w = visible_width(lines[j]);
                &&& box_rows(c, lines, title, target_width, target_height, true)[1 + top_padding(
                    lines.len(),
                    target_height,
                ) + j] == content_row(c, lines[j], inner, true)
                &&& left_pad(inner, w, true) <= right_pad(inner, w, true)
                &&& right_pad(inner, w, true) <= left_pad(inner, w, true) + 1
                &&& left_pad(inner, w, true) + w + right_pad(inner, w, true) == inner
            },
{
    let inner = box_inner_width(lines, title, target_width);
    let rows = box_rows(c, lines, title, target_width, target_height, true);
    let top = top_padding(lines.len(), target_height);
    assert forall|j: int| #![trigger lines[j]] 0 <= j < lines.len() implies {
        let w = visible_width(lines[j]);
        &&& rows[1 + top + j] == content_row(c, lines[j], inner, true)
        &&& left_pad(inner, w, true) <= right_pad(inner, w, true)
        &&& right_pad(inner, w, true) <= left_pad(inner, w, true) + 1
        &&& left_pad(inner, w, true) + w + right_pad(inner, w, true) == inner
    } by {
        lemma_max_width_bound(lines, j);
    }
}


proof fn lemma_lines_text_nonempty(rows: Seq<Seq<char>>)
    requires
        rows.len() > 0,
    ensures
        lines_text(rows).len() > 0,
{
}

proof fn lemma_stack_nonempty(c: ColorConfig, secs: Seq<Section>, w: usize)
    requires
        secs.len() > 0,
    ensures
        stack_rows(c, secs, w).len() > 0,
{
}

/// The layout's text is never empty where there is a section to show, nor
/// where a layout with art is chosen; the sole empty case is no section at all
/// on a terminal with room for no art.
pub proof fn lemma_layout_nonempty(
    c: ColorConfig,
    wide: Seq<Seq<char>>,
    medium: Seq<Seq<char>>,
    narrow: Seq<Seq<char>>,
    secs: Seq<Section>,
    compact: Option<Seq<Seq<char>>>,
    terminal: Option<(u16, u16)>,
)
    requires
        secs.len() > 0 || layout_for(wide, medium, narrow, secs, compact, terminal)
            != LayoutChoice::SectionsOnly,
    ensures
        layout_text(c, wide, medium, narrow, secs, compact, terminal).len() > 0,
{
    let sw = crate::renderer::sections_width(secs);
    let free = stack_rows(c, secs, sw as usize);
    match layout_for(wide, medium, narrow, secs, compact, terminal) {
        LayoutChoice::SideBySide(a) => {
            let art = crate::renderer::art_of(a, wide, medium, narrow, compact);
            let left = box_rows(c, art, None, None, Some(free.len() as usize), true);
            let rows = Seq::new(
                nat_max(left.len(), free.len()),
                |k: int| crate::renderer::beside_row(left, free, k),
            );
            lemma_lines_text_nonempty(rows);
        },
        LayoutChoice::Stacked(a) => {
            let art = crate::renderer::art_of(a, wide, medium, narrow, compact);
            let w = nat_max(max_width(art), sw) as usize;
            lemma_lines_text_nonempty(box_rows(c, art, None, Some(w), None, true));
        },
        LayoutChoice::SectionsOnly => {
            lemma_stack_nonempty(c, secs, sw as usize);
            lemma_lines_text_nonempty(free);
        },
    }
}

} // verus!
