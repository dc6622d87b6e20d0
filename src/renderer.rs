//! Bordered boxes, stacks of section boxes, and the choice of a layout.
use crate::colorcontrol::{color_border, color_key, color_title, color_value, lemma_painted_width, painted};
use crate::configloader::ColorConfig;
use crate::width::{lemma_width_append, visible_len, visible_width};
use vstd::prelude::*;

verus! {

/// `s` written `n` times in a row.
pub open spec fn rep(s: Seq<char>, n: nat) -> Seq<char>
    decreases n,
{
    if n == 0 {
        Seq::empty()
    } else {
        rep(s, (n - 1) as nat) + s
    }
}

/// The text held by each string of `v`, in order.
pub open spec fn views(v: Seq<String>) -> Seq<Seq<char>> {
    v.map_values(|s: String| s@)
}

/// The text of an optional string.
pub open spec fn opt_view(t: Option<&str>) -> Option<Seq<char>> {
    match t {
        Some(s) => Some(s@),
        None => None,
    }
}

pub open spec fn nat_max(a: nat, b: nat) -> nat {
    if a >= b {
        a
    } else {
        b
    }
}

/// `a - b`, or zero where `b` is the larger.
pub open spec fn sat_sub(a: nat, b: nat) -> nat {
    if a >= b {
        (a - b) as nat
    } else {
        0
    }
}

/// The largest visible width among `lines`, zero for none.
pub open spec fn max_width(lines: Seq<Seq<char>>) -> nat
    decreases lines.len(),
{
    if lines.len() == 0 {
        0
    } else {
        nat_max(max_width(lines.drop_last()), visible_width(lines.last()))
    }
}

/// Number of characters of an optional title, zero for none.
pub open spec fn title_len(title: Option<Seq<char>>) -> nat {
    match title {
        Some(t) => t.len(),
        None => 0,
    }
}

/// Interior width of a box: its widest line, its title, and the width asked for.
pub open spec fn box_inner_width(
    lines: Seq<Seq<char>>,
    title: Option<Seq<char>>,
    target_width: Option<usize>,
) -> nat {
    let fit = nat_max(max_width(lines), title_len(title));
    match target_width {
        Some(w) => nat_max(w as nat, fit),
        None => fit,
    }
}

/// Number of rows of a box of `n` content lines: its lines and two borders,
/// or the height asked for where that is more.
pub open spec fn box_height(n: nat, target_height: Option<usize>) -> nat {
    match target_height {
        Some(h) => nat_max(h as nat, n + 2),
        None => n + 2,
    }
}

/// Blank rows above the content: half the extra height, rounded down.
pub open spec fn top_padding(n: nat, target_height: Option<usize>) -> nat {
    sat_sub(box_height(n, target_height), n + 2) / 2
}

/// Blank rows below the content: the rest of the extra height.
pub open spec fn bottom_padding(n: nat, target_height: Option<usize>) -> nat {
    (sat_sub(box_height(n, target_height), n + 2) - top_padding(n, target_height)) as nat
}

pub open spec fn border(c: ColorConfig, s: Seq<char>) -> Seq<char> {
    painted(s, c.border)
}

/// A run of `n` horizontal rule characters in the border colour.
pub open spec fn rule(c: ColorConfig, n: nat) -> Seq<char> {
    border(c, rep(seq!['─'], n))
}

/// The top border; a title sits in its middle between two spaces, with the odd
/// dash of the rule on its right.
pub open spec fn top_border(c: ColorConfig, inner: nat, title: Option<Seq<char>>) -> Seq<char> {
    match title {
        None => border(c, seq!['╭']) + rule(c, inner + 2) + border(c, seq!['╮']),
        Some(t) => {
            let dashes = sat_sub(inner, t.len());
            let left = dashes / 2;
            border(c, seq!['╭']) + rule(c, left) + seq![' '] + painted(t, c.title) + seq![' ']
                + rule(c, (dashes - left) as nat) + border(c, seq!['╮'])
        },
    }
}

pub open spec fn bottom_border(c: ColorConfig, inner: nat) -> Seq<char> {
    border(c, seq!['╰']) + rule(c, inner + 2) + border(c, seq!['╯'])
}

/// The vertical border character in the border colour.
pub open spec fn side(c: ColorConfig) -> Seq<char> {
    border(c, seq!['│'])
}

/// An interior row with no content.
pub open spec fn blank_row(c: ColorConfig, inner: nat) -> Seq<char> {
    side(c) + rep(seq![' '], inner + 2) + side(c)
}

/// Spaces put left of a content line of visible width `w`.
pub open spec fn left_pad(inner: nat, w: nat, center: bool) -> nat {
    if center {
        sat_sub(inner, w) / 2
    } else {
        0
    }
}

/// Spaces put right of a content line of visible width `w`.
pub open spec fn right_pad(inner: nat, w: nat, center: bool) -> nat {
    (sat_sub(inner, w) - left_pad(inner, w, center)) as nat
}

/// A content row: border, margin, left padding, the line, right padding,
/// margin, border.
pub open spec fn content_row(c: ColorConfig, line: Seq<char>, inner: nat, center: bool) -> Seq<
    char,
> {
    let w = visible_width(line);
    side(c) + seq![' '] + rep(seq![' '], left_pad(inner, w, center)) + line + rep(
        seq![' '],
        right_pad(inner, w, center),
    ) + seq![' '] + side(c)
}

/// The rows of the box around `lines`.
pub open spec fn box_rows(
    c: ColorConfig,
    lines: Seq<Seq<char>>,
    title: Option<Seq<char>>,
    target_width: Option<usize>,
    target_height: Option<usize>,
    center: bool,
) -> Seq<Seq<char>> {
    let inner = box_inner_width(lines, title, target_width);
    seq![top_border(c, inner, title)] + Seq::new(
        top_padding(lines.len(), target_height),
        |_i: int| blank_row(c, inner),
    ) + lines.map_values(|l: Seq<char>| content_row(c, l, inner, center)) + Seq::new(
        bottom_padding(lines.len(), target_height),
        |_i: int| blank_row(c, inner),
    ) + seq![bottom_border(c, inner)]
}

/// `piece` written `n` times.
fn repeat_str(piece: &str, n: usize) -> (r: String)
    ensures
        r@ == rep(piece@, n as nat),
{
    let mut r = String::new();
    let mut i: usize = 0;
    while i < n
        invariant
            i <= n,
            r@ == rep(piece@, i as nat),
        decreases n - i,
    {
        r.append(piece);
        i = i + 1;
    }
    r
}

/// Number of characters of `s`.
fn char_count(s: &str) -> (n: usize)
    ensures
        n == s@.len(),
{
    let byte_len = s.as_bytes().len();
    proof {
        crate::width::lemma_encoding_not_shorter(s@);
    }
    let mut n: usize = 0;
    for _c in it: s.chars()
        invariant
            it.seq() == s@,
            s@.len() <= byte_len,
            n == it.index(),
    {
        n = n + 1;
    }
    n
}

/// Concatenation of the given pieces.
fn join3(a: &str, b: &str, c: &str) -> (r: String)
    ensures
        r@ == a@ + b@ + c@,
{
    let mut r = String::new();
    r.append(a);
    r.append(b);
    r.append(c);
    r
}

/// Widths of `lines` and the largest of them.
fn line_widths(lines: &[String]) -> (r: (Vec<usize>, usize))
    ensures
        r.0@.len() == lines@.len(),
        forall|j: int| 0 <= j < lines@.len() ==> r.0@[j] == visible_width(lines@[j]@),
        r.1 == max_width(views(lines@)),
{
    let mut widths: Vec<usize> = Vec::new();
    let mut widest: usize = 0;
    let n = lines.len();
    let mut i: usize = 0;
    while i < n
        invariant
            i <= n,
            n == lines@.len(),
            widths@.len() == i,
            forall|j: int| 0 <= j < i ==> widths@[j] == visible_width(lines@[j]@),
            widest == max_width(views(lines@).take(i as int)),
        decreases n - i,
    {
        let w = visible_len(lines[i].as_str());
        proof {
            let v = views(lines@);
            assert(v.take(i + 1).drop_last() =~= v.take(i as int));
        }
        widths.push(w);
        if w > widest {
            widest = w;
        }
        i = i + 1;
    }
    assert(views(lines@).take(n as int) =~= views(lines@));
    (widths, widest)
}

/// The top border of a box `inner` columns wide inside.
fn make_top(colors: &ColorConfig, inner: usize, title: Option<&str>, title_chars: usize) -> (r:
    String)
    requires
        inner + 2 <= usize::MAX,
        title_chars == title_len(opt_view(title)),
        title_chars <= inner,
    ensures
        r@ == top_border(*colors, inner as nat, opt_view(title)),
{
    proof {
        reveal_strlit("╭");
        reveal_strlit("╮");
        reveal_strlit(" ");
        reveal_strlit("─");
        assert("╭"@ =~= seq!['╭']);
        assert("╮"@ =~= seq!['╮']);
        assert(" "@ =~= seq![' ']);
        assert("─"@ =~= seq!['─']);
    }
    let mut s = color_border(colors, "╭");
    match title {
        Some(t) => {
            let dashes = inner - title_chars;
            let left = dashes / 2;
            s.append(color_border(colors, repeat_str("─", left).as_str()).as_str());
            s.append(" ");
            s.append(color_title(colors, t).as_str());
            s.append(" ");
            s.append(color_border(colors, repeat_str("─", dashes - left).as_str()).as_str());
        },
        None => {
            s.append(color_border(colors, repeat_str("─", inner + 2).as_str()).as_str());
        },
    }
    s.append(color_border(colors, "╮").as_str());
    proof {
        assert(s@ =~= top_border(*colors, inner as nat, opt_view(title)));
    }
    s
}

/// The bottom border of a box `inner` columns wide inside.
fn make_bottom(colors: &ColorConfig, inner: usize) -> (r: String)
    requires
        inner + 2 <= usize::MAX,
    ensures
        r@ == bottom_border(*colors, inner as nat),
{
    proof {
        reveal_strlit("╰");
        reveal_strlit("╯");
        reveal_strlit("─");
        assert("╰"@ =~= seq!['╰']);
        assert("╯"@ =~= seq!['╯']);
        assert("─"@ =~= seq!['─']);
    }
    join3(
        color_border(colors, "╰").as_str(),
        color_border(colors, repeat_str("─", inner + 2).as_str()).as_str(),
        color_border(colors, "╯").as_str(),
    )
}

/// The vertical border in the border colour.
fn make_side(colors: &ColorConfig) -> (r: String)
    ensures
        r@ == side(*colors),
{
    proof {
        reveal_strlit("│");
        assert("│"@ =~= seq!['│']);
    }
    color_border(colors, "│")
}

/// An interior row with no content.
fn make_blank(side_str: &String, inner: usize, colors: &ColorConfig) -> (r: String)
    requires
        side_str@ == side(*colors),
        inner + 2 <= usize::MAX,
    ensures
        r@ == blank_row(*colors, inner as nat),
{
    proof {
        reveal_strlit(" ");
        assert(" "@ =~= seq![' ']);
    }
    join3(side_str.as_str(), repeat_str(" ", inner + 2).as_str(), side_str.as_str())
}

/// A content row for `line`, whose visible width is `w`.
fn make_row(colors: &ColorConfig, side_str: &String, line: &String, w: usize, inner: usize, center: bool) -> (r: String)
    requires
        side_str@ == side(*colors),
        w == visible_width(line@),
        w <= inner,
    ensures
        r@ == content_row(*colors, line@, inner as nat, center),
{
    proof {
        reveal_strlit(" ");
        assert(" "@ =~= seq![' ']);
    }
    let pad = inner - w;
    let left = if center {
        pad / 2
    } else {
        0
    };
    let right = pad - left;
    let mut row = side_str.clone();
    row.append(" ");
    row.append(repeat_str(" ", left).as_str());
    row.append(line.as_str());
    row.append(repeat_str(" ", right).as_str());
    row.append(" ");
    row.append(side_str.as_str());
    proof {
        assert(row@ =~= content_row(*colors, line@, inner as nat, center));
    }
    row
}

/// Appends `count` copies of `row`.
fn push_copies(result: &mut Vec<String>, row: &String, count: usize)
    ensures
        views(final(result)@) == views(old(result)@) + Seq::new(count as nat, |_i: int| row@),
{
    let ghost start = views(result@);
    let mut k: usize = 0;
    while k < count
        invariant
            k <= count,
            views(result@) == start + Seq::new(k as nat, |_i: int| row@),
        decreases count - k,
    {
        let ghost before = result@;
        result.push(row.clone());
        k = k + 1;
        proof {
            lemma_views_push(before, *row);
            assert(views(result@) =~= start + Seq::new(k as nat, |_i: int| row@));
        }
    }
}

/// Appends the content row of each line.
fn push_content_rows(
    result: &mut Vec<String>,
    colors: &ColorConfig,
    side_str: &String,
    lines: &[String],
    widths: &Vec<usize>,
    content_width: usize,
    inner: usize,
    center_content: bool,
)
    requires
        side_str@ == side(*colors),
        widths@.len() == lines@.len(),
        forall|j: int| 0 <= j < lines@.len() ==> widths@[j] == visible_width(lines@[j]@),
        content_width == max_width(views(lines@)),
        inner >= content_width,
    ensures
        views(final(result)@) == views(old(result)@) + views(lines@).map_values(
            |l: Seq<char>| content_row(*colors, l, inner as nat, center_content),
        ),
{
    let ghost lv = views(lines@);
    let ghost c = *colors;
    let ghost inn = inner as nat;
    let ghost upper = views(result@);
    let n = lines.len();
    let mut i: usize = 0;
    while i < n
        invariant
            i <= n,
            n == lines@.len(),
            lv == views(lines@),
            widths@.len() == n,
            forall|j: int| 0 <= j < n ==> widths@[j] == visible_width(lines@[j]@),
            inner >= content_width,
            content_width == max_width(lv),
            c == *colors,
            inn == inner,
            side_str@ == side(c),
            views(result@) == upper + lv.take(i as int).map_values(
                |l: Seq<char>| content_row(c, l, inn, center_content),
            ),
        decreases n - i,
    {
        proof {
            lemma_max_width_bound(lv, i as int);
        }
        let row = make_row(colors, side_str, &lines[i], widths[i], inner, center_content);
        let ghost before = result@;
        let ghost row_v = row@;
        result.push(row);
        i = i + 1;
        proof {
            assert(views(result@) =~= views(before).push(row_v));
            assert(lv.take(i as int).map_values(
                |l: Seq<char>| content_row(c, l, inn, center_content),
            ) =~= lv.take(i - 1).map_values(
                |l: Seq<char>| content_row(c, l, inn, center_content),
            ).push(content_row(c, lv[i - 1], inn, center_content)));
        }
    }
    assert(lv.take(n as int) =~= lv);
}

/// Builds a bordered box around `lines`: an optional title centred in the top
/// border, at least `target_width` columns inside and `target_height` rows in
/// all, each line left-aligned or centred. Every row has the same visible width.
#[verifier::rlimit(30)]
pub fn build_box(
    lines: &[String],
    title: Option<&str>,
    target_width: Option<usize>,
    target_height: Option<usize>,
    center_content: bool,
    colors: &ColorConfig,
) -> (result: Vec<String>)
    requires
        box_inner_width(views(lines@), opt_view(title), target_width) + 2 <= usize::MAX,
        box_height(lines@.len(), target_height) <= usize::MAX,
    ensures
        views(result@) == box_rows(
            *colors,
            views(lines@),
            opt_view(title),
            target_width,
            target_height,
            center_content,
        ),
{
    let ghost lv = views(lines@);
    let ghost tv = opt_view(title);
    let (widths, content_width) = line_widths(lines);
    let title_chars: usize = match title {
        Some(t) => char_count(t),
        None => 0,
    };
    let minimum_width = if content_width >= title_chars {
        content_width
    } else {
        title_chars
    };
    let inner: usize = match target_width {
        Some(w) => if w >= minimum_width {
            w
        } else {
            minimum_width
        },
        None => minimum_width,
    };
    assert(inner == box_inner_width(lv, tv, target_width));
    let n = lines.len();
    let minimum_height = n + 2;
    let total_height: usize = match target_height {
        Some(h) => if h >= minimum_height {
            h
        } else {
            minimum_height
        },
        None => minimum_height,
    };
    let slack = total_height - minimum_height;
    let top_rows = slack / 2;
    let bottom_rows = slack - top_rows;
    let ghost c = *colors;
    let ghost inn = inner as nat;

    let side_str = make_side(colors);
    let blank = make_blank(&side_str, inner, colors);

    let ghost head = seq![top_border(c, inn, tv)];
    let ghost pad_top = Seq::new(top_rows as nat, |_i: int| blank_row(c, inn));
    let ghost body = lv.map_values(|l: Seq<char>| content_row(c, l, inn, center_content));
    let ghost pad_bottom = Seq::new(bottom_rows as nat, |_i: int| blank_row(c, inn));
    assert(lv.len() == n);
    assert(top_rows == top_padding(lv.len(), target_height));
    assert(bottom_rows == bottom_padding(lv.len(), target_height));

    let mut result: Vec<String> = Vec::new();
    let top = make_top(colors, inner, title, title_chars);
    result.push(top);
    assert(views(result@) =~= head);
    push_copies(&mut result, &blank, top_rows);
    push_content_rows(&mut result, colors, &side_str, lines, &widths, content_width, inner, center_content);
    push_copies(&mut result, &blank, bottom_rows);
    assert(views(result@) == head + pad_top + body + pad_bottom);
    let bottom = make_bottom(colors, inner);
    let ghost before = result@;
    let ghost bottom_v = bottom@;
    result.push(bottom);
    proof {
        assert(views(result@) =~= views(before).push(bottom_v));
        assert(views(result@) =~= head + pad_top + body + pad_bottom + seq![bottom_v]);
    }
    result
}


/// A titled group of key/value rows; the rows are shown in order.
pub struct Section {
    pub title: String,
    pub lines: Vec<(String, String)>,
}

impl Section {
    /// A section titled `title` holding `lines`.
    pub fn new(title: &str, lines: Vec<(String, String)>) -> (s: Self)
        ensures
            s.title@ == title@,
            s.lines@ == lines@,
    {
        Section { title: title.to_string(), lines }
    }
}

/// A `key: value` row, key and value each in its own colour.
pub open spec fn kv_line(c: ColorConfig, key: Seq<char>, value: Seq<char>) -> Seq<char> {
    painted(key, c.key) + seq![':', ' '] + painted(value, c.value)
}

/// The rows of a section, before boxing.
pub open spec fn section_lines(c: ColorConfig, s: Section) -> Seq<Seq<char>> {
    s.lines@.map_values(|p: (String, String)| kv_line(c, p.0@, p.1@))
}

/// Visible width of the row `key: value`.
pub open spec fn pair_width(p: (String, String)) -> nat {
    visible_width(p.0@) + 2 + visible_width(p.1@)
}

/// The widest `key: value` row among `lines`, zero for none.
pub open spec fn rows_width(lines: Seq<(String, String)>) -> nat
    decreases lines.len(),
{
    if lines.len() == 0 {
        0
    } else {
        nat_max(rows_width(lines.drop_last()), pair_width(lines.last()))
    }
}

/// The widest title or row over `secs`.
pub open spec fn sections_width(secs: Seq<Section>) -> nat
    decreases secs.len(),
{
    if secs.len() == 0 {
        0
    } else {
        nat_max(
            sections_width(secs.drop_last()),
            nat_max(secs.last().title@.len(), rows_width(secs.last().lines@)),
        )
    }
}

/// The width that all section boxes share: the widest title or row, or the
/// width asked for where that is more.
pub open spec fn unified_width(secs: Seq<Section>, target_width: Option<usize>) -> nat {
    match target_width {
        Some(w) => nat_max(w as nat, sections_width(secs)),
        None => sections_width(secs),
    }
}

/// The boxes of `secs`, each `w` columns wide inside, one below the other.
pub open spec fn stack_rows(c: ColorConfig, secs: Seq<Section>, w: usize) -> Seq<Seq<char>>
    decreases secs.len(),
{
    if secs.len() == 0 {
        Seq::empty()
    } else {
        stack_rows(c, secs.drop_last(), w) + box_rows(
            c,
            section_lines(c, secs.last()),
            Some(secs.last().title@),
            Some(w),
            None,
            false,
        )
    }
}

/// Number of rows of the stacked section boxes: each section's rows and two borders.
pub open spec fn stack_height(secs: Seq<Section>) -> nat
    decreases secs.len(),
{
    if secs.len() == 0 {
        0
    } else {
        stack_height(secs.drop_last()) + secs.last().lines@.len() + 2
    }
}

/// The rows of a section, each key and value coloured.
fn format_section(colors: &ColorConfig, section: &Section) -> (r: Vec<String>)
    ensures
        views(r@) == section_lines(*colors, *section),
{
    let ghost c = *colors;
    let mut r: Vec<String> = Vec::new();
    let n = section.lines.len();
    let mut i: usize = 0;
    while i < n
        invariant
            i <= n,
            n == section.lines@.len(),
            c == *colors,
            views(r@) == section_lines(c, *section).take(i as int),
        decreases n - i,
    {
        proof {
            reveal_strlit(": ");
            assert(": "@ =~= seq![':', ' ']);
        }
        let mut row = color_key(colors, section.lines[i].0.as_str());
        row.append(": ");
        row.append(color_value(colors, section.lines[i].1.as_str()).as_str());
        let ghost before = r@;
        let ghost row_v = row@;
        r.push(row);
        i = i + 1;
        proof {
            assert(row_v == kv_line(c, section.lines@[i - 1].0@, section.lines@[i - 1].1@));
            assert(views(r@) =~= views(before).push(row_v));
            assert(section_lines(c, *section).take(i as int) =~= section_lines(c, *section).take(
                i - 1,
            ).push(row_v));
        }
    }
    assert(section_lines(c, *section).take(n as int) =~= section_lines(c, *section));
    r
}

/// Turns `sections` into boxes of one common width, left-aligned, each titled
/// with its section's title, one below the other. The common width is that of
/// the widest title or row, or `target_width` where that is more.
pub fn build_sections_lines(
    sections: &[Section],
    target_width: Option<usize>,
    colors: &ColorConfig,
) -> (result: Vec<String>)
    requires
        unified_width(sections@, target_width) + 2 <= usize::MAX,
        forall|j: int| 0 <= j < sections@.len() ==> #[trigger] sections@[j].lines@.len() + 2 <= usize::MAX,
    ensures
        views(result@) == stack_rows(
            *colors,
            sections@,
            unified_width(sections@, target_width) as usize,
        ),
{
    let ghost c = *colors;
    let n = sections.len();
    let mut formatted: Vec<Vec<String>> = Vec::new();
    let mut widest: usize = 0;
    let mut i: usize = 0;
    while i < n
        invariant
            i <= n,
            n == sections@.len(),
            c == *colors,
            formatted@.len() == i,
            forall|j: int| 0 <= j < i ==> views(#[trigger] formatted@[j]@) == section_lines(c, sections@[j]),
            widest == sections_width(sections@.take(i as int)),
            sections_width(sections@) <= unified_width(sections@, target_width),
        decreases n - i,
    {
        let rows = format_section(colors, &sections[i]);
        let (_, rows_widest) = line_widths(rows.as_slice());
        let title_chars = char_count(sections[i].title.as_str());
        proof {
            assert(sections@.take(i + 1).drop_last() =~= sections@.take(i as int));
            lemma_sections_width_prefix(sections@, i + 1);
            lemma_rows_width(c, sections@[i as int].lines@);
        }
        if title_chars > widest {
            widest = title_chars;
        }
        if rows_widest > widest {
            widest = rows_widest;
        }
        formatted.push(rows);
        i = i + 1;
    }
    assert(sections@.take(n as int) =~= sections@);
    let unified: usize = match target_width {
        Some(w) => if w >= widest {
            w
        } else {
            widest
        },
        None => widest,
    };
    let mut result: Vec<String> = Vec::new();
    let mut i: usize = 0;
    while i < n
        invariant
            i <= n,
            n == sections@.len(),
            c == *colors,
            formatted@.len() == n,
            forall|j: int| 0 <= j < n ==> views(#[trigger] formatted@[j]@) == section_lines(c, sections@[j]),
            unified == unified_width(sections@, target_width),
            unified + 2 <= usize::MAX,
            forall|j: int| 0 <= j < sections@.len() ==> #[trigger] sections@[j].lines@.len() + 2 <= usize::MAX,
            views(result@) == stack_rows(c, sections@.take(i as int), unified),
        decreases n - i,
    {
        let section = &sections[i];
        proof {
            lemma_section_fits(sections@, i as int);
            lemma_rows_width(c, section.lines@);
            assert(views(formatted@[i as int]@).len() == section.lines@.len());
        }
        let boxed = build_box(
            formatted[i].as_slice(),
            Some(section.title.as_str()),
            Some(unified),
            None,
            false,
            colors,
        );
        let ghost before = views(result@);
        let mut k: usize = 0;
        let m = boxed.len();
        while k < m
            invariant
                k <= m,
                m == boxed@.len(),
                views(result@) == before + views(boxed@).take(k as int),
            decreases m - k,
        {
            let ghost prev = result@;
            result.push(boxed[k].clone());
            k = k + 1;
            proof {
                assert(views(result@) =~= views(prev).push(boxed@[k - 1]@));
                assert(views(boxed@).take(k as int) =~= views(boxed@).take(k - 1).push(
                    boxed@[k - 1]@,
                ));
            }
        }
        i = i + 1;
        proof {
            assert(views(boxed@).take(m as int) =~= views(boxed@));
            assert(sections@.take(i as int).drop_last() =~= sections@.take(i - 1));
        }
    }
    assert(sections@.take(n as int) =~= sections@);
    result
}

proof fn lemma_sections_width_prefix(secs: Seq<Section>, i: int)
    requires
        0 < i <= secs.len(),
    ensures
        sections_width(secs.take(i)) == nat_max(
            sections_width(secs.take(i - 1)),
            nat_max(secs[i - 1].title@.len(), rows_width(secs[i - 1].lines@)),
        ),
        sections_width(secs.take(i)) <= sections_width(secs),
    decreases secs.len(),
{
    assert(secs.take(i).drop_last() =~= secs.take(i - 1));
    if i < secs.len() {
        lemma_sections_width_prefix(secs.drop_last(), i);
        assert(secs.drop_last().take(i) =~= secs.take(i));
    } else {
        assert(secs.take(i) =~= secs);
    }
}

/// Each section's rows and title fit the common width.
pub proof fn lemma_section_fits(secs: Seq<Section>, j: int)
    requires
        0 <= j < secs.len(),
    ensures
        secs[j].title@.len() <= sections_width(secs),
        rows_width(secs[j].lines@) <= sections_width(secs),
    decreases secs.len(),
{
    if j < secs.len() - 1 {
        lemma_section_fits(secs.drop_last(), j);
    }
}

/// A coloured `key: value` row is as wide as its key and value and the two
/// characters between them.
pub proof fn lemma_kv_line_width(c: ColorConfig, key: Seq<char>, value: Seq<char>)
    ensures
        visible_width(kv_line(c, key, value)) == visible_width(key) + 2 + visible_width(value),
{
    let sep = seq![':', ' '];
    assert(!sep.contains(crate::width::ESC)) by {
        if sep.contains(crate::width::ESC) {
            let i = choose|i: int| 0 <= i < sep.len() && sep[i] == crate::width::ESC;
        }
    }
    crate::width::lemma_plain_width(sep);
    lemma_painted_width(key, c.key);
    lemma_painted_width(value, c.value);
    lemma_width_append(painted(key, c.key), sep);
    lemma_width_append(painted(key, c.key) + sep, painted(value, c.value));
}

/// The widest coloured row of a section is its widest `key: value` row.
pub proof fn lemma_rows_width(c: ColorConfig, lines: Seq<(String, String)>)
    ensures
        max_width(lines.map_values(|p: (String, String)| kv_line(c, p.0@, p.1@))) == rows_width(
            lines,
        ),
    decreases lines.len(),
{
    let m = lines.map_values(|p: (String, String)| kv_line(c, p.0@, p.1@));
    if lines.len() > 0 {
        lemma_rows_width(c, lines.drop_last());
        assert(m.drop_last() =~= lines.drop_last().map_values(
            |p: (String, String)| kv_line(c, p.0@, p.1@),
        ));
        lemma_kv_line_width(c, lines.last().0@, lines.last().1@);
    }
}

/// The widest line of an art block.
fn art_width(art: &[String]) -> (w: usize)
    ensures
        w == max_width(views(art@)),
{
    let (_, w) = line_widths(art);
    w
}

/// `rows`, each ended by a line break.
pub open spec fn lines_text(rows: Seq<Seq<char>>) -> Seq<char>
    decreases rows.len(),
{
    if rows.len() == 0 {
        Seq::empty()
    } else {
        lines_text(rows.drop_last()) + rows.last() + seq!['\n']
    }
}

/// Row `k` of two boxes put side by side: the left row, or blanks as wide as
/// the left box past its end; a space; the right row, or nothing past its end.
pub open spec fn beside_row(left: Seq<Seq<char>>, right: Seq<Seq<char>>, k: int) -> Seq<char> {
    let l = if k < left.len() {
        left[k]
    } else if left.len() > 0 {
        rep(seq![' '], visible_width(left[0]))
    } else {
        Seq::empty()
    };
    let r = if k < right.len() {
        right[k]
    } else {
        Seq::empty()
    };
    l + seq![' '] + r
}

/// Two boxes side by side, as many rows as the taller of them.
pub open spec fn side_by_side_text(left: Seq<Seq<char>>, right: Seq<Seq<char>>) -> Seq<char> {
    lines_text(Seq::new(nat_max(left.len(), right.len()), |k: int| beside_row(left, right, k)))
}

/// Writes two boxes side by side, the art box on the left.
pub(crate) fn render_side_by_side(art_box: &[String], sections_box: &[String], output: &mut String)
    ensures
        final(output)@ == old(output)@ + side_by_side_text(views(art_box@), views(sections_box@)),
{
    let ghost start = output@;
    let ghost left = views(art_box@);
    let ghost right = views(sections_box@);
    let total_row_count = if art_box.len() >= sections_box.len() {
        art_box.len()
    } else {
        sections_box.len()
    };
    let art_box_visual_width = if art_box.len() > 0 {
        visible_len(art_box[0].as_str())
    } else {
        0
    };
    let art_padding_spaces = repeat_str(" ", art_box_visual_width);
    proof {
        reveal_strlit(" ");
        reveal_strlit("\n");
        assert(" "@ =~= seq![' ']);
        assert("\n"@ =~= seq!['\n']);
    }
    let ghost rows = Seq::new(total_row_count as nat, |k: int| beside_row(left, right, k));
    let mut row_index: usize = 0;
    while row_index < total_row_count
        invariant
            row_index <= total_row_count,
            total_row_count == nat_max(left.len(), right.len()),
            left == views(art_box@),
            right == views(sections_box@),
            rows == Seq::new(total_row_count as nat, |k: int| beside_row(left, right, k)),
            art_box@.len() > 0 ==> art_padding_spaces@ == rep(seq![' '], visible_width(left[0])),
            art_box@.len() == 0 ==> art_padding_spaces@ == rep(seq![' '], 0),
            " "@ == seq![' '],
            "\n"@ == seq!['\n'],
            output@ == start + lines_text(rows.take(row_index as int)),
        decreases total_row_count - row_index,
    {
        let ghost before = output@;
        if row_index < art_box.len() {
            output.append(art_box[row_index].as_str());
        } else {
            output.append(art_padding_spaces.as_str());
        }
        output.append(" ");
        if row_index < sections_box.len() {
            output.append(sections_box[row_index].as_str());
        }
        output.append("\n");
        proof {
            let k = row_index as int;
            assert(output@ =~= before + beside_row(left, right, k) + seq!['\n']);
            assert(rows.take(k + 1).drop_last() =~= rows.take(k));
        }
        row_index = row_index + 1;
    }
    assert(rows.take(total_row_count as int) =~= rows);
}

/// Writes `rows`, each ended by a line break.
pub(crate) fn write_lines(rows: &[String], output: &mut String)
    ensures
        final(output)@ == old(output)@ + lines_text(views(rows@)),
{
    let ghost start = output@;
    let ghost v = views(rows@);
    proof {
        reveal_strlit("\n");
        assert("\n"@ =~= seq!['\n']);
    }
    let n = rows.len();
    let mut i: usize = 0;
    while i < n
        invariant
            i <= n,
            n == rows@.len(),
            v == views(rows@),
            "\n"@ == seq!['\n'],
            output@ == start + lines_text(v.take(i as int)),
        decreases n - i,
    {
        output.append(rows[i].as_str());
        output.append("\n");
        i = i + 1;
        proof {
            assert(v.take(i as int).drop_last() =~= v.take(i - 1));
        }
    }
    assert(v.take(n as int) =~= v);
}

/// Writes two boxes one below the other, the art box on top.
fn render_stacked(art_box: &[String], sections_box: &[String], output: &mut String)
    ensures
        final(output)@ == old(output)@ + lines_text(views(art_box@)) + lines_text(
            views(sections_box@),
        ),
{
    write_lines(art_box, output);
    write_lines(sections_box, output);
}


/// The art shown beside or above the sections.
#[derive(Clone, Copy, Debug, PartialEq, Eq, Structural)]
pub enum ArtChoice {
    Wide,
    Compact,
    Medium,
    Narrow,
}

/// How art and sections are put together.
#[derive(Clone, Copy, Debug, PartialEq, Eq, Structural)]
pub enum LayoutChoice {
    SideBySide(ArtChoice),
    Stacked(ArtChoice),
    SectionsOnly,
}

/// Columns taken by art `art_w` wide beside sections `sec_w` wide: two boxes,
/// each four columns wider than its content, and a one-column gap.
pub open spec fn beside_width(art_w: nat, sec_w: nat) -> nat {
    art_w + 4 + 1 + sec_w + 4
}

/// Rows taken by art of `art_h` lines above sections `sec_h` rows high.
pub open spec fn above_height(art_h: nat, sec_h: nat) -> nat {
    art_h + 2 + sec_h
}

/// The first layout, in order of preference, that the terminal has room for.
/// `compact` gives the width and the number of lines of the compact art, if any.
pub open spec fn choose_layout(
    wide_w: nat,
    medium_w: nat,
    narrow_h: nat,
    compact: Option<(nat, nat)>,
    sec_w: nat,
    sec_h: nat,
    term_w: nat,
    term_h: nat,
) -> LayoutChoice {
    let compact_beside = match compact {
        Some(d) => term_w >= beside_width(d.0, sec_w),
        None => false,
    };
    let compact_above = match compact {
        Some(d) => term_h >= above_height(d.1, sec_h),
        None => false,
    };
    if term_w >= beside_width(wide_w, sec_w) {
        LayoutChoice::SideBySide(ArtChoice::Wide)
    } else if compact_beside {
        LayoutChoice::SideBySide(ArtChoice::Compact)
    } else if term_w >= beside_width(medium_w, sec_w) {
        LayoutChoice::SideBySide(ArtChoice::Medium)
    } else if compact_above {
        LayoutChoice::Stacked(ArtChoice::Compact)
    } else if term_h >= above_height(narrow_h, sec_h) {
        LayoutChoice::Stacked(ArtChoice::Narrow)
    } else {
        LayoutChoice::SectionsOnly
    }
}

/// Picks the layout: the wide, compact or medium art beside the sections, the
/// compact or narrow art above them, or the sections alone, the first that fits.
pub fn select_layout(
    wide_width: usize,
    medium_width: usize,
    narrow_height: usize,
    compact: Option<(usize, usize)>,
    sections_width: usize,
    sections_height: usize,
    terminal_width: usize,
    terminal_height: usize,
) -> (choice: LayoutChoice)
    ensures
        choice == choose_layout(
            wide_width as nat,
            medium_width as nat,
            narrow_height as nat,
            match compact {
                Some(d) => Some((d.0 as nat, d.1 as nat)),
                None => None,
            },
            sections_width as nat,
            sections_height as nat,
            terminal_width as nat,
            terminal_height as nat,
        ),
{
    let tw = terminal_width as u128;
    let th = terminal_height as u128;
    let sw = sections_width as u128;
    let sh = sections_height as u128;
    if tw >= wide_width as u128 + 9 + sw {
        return LayoutChoice::SideBySide(ArtChoice::Wide);
    }
    if let Some((cw, _)) = compact {
        if tw >= cw as u128 + 9 + sw {
            return LayoutChoice::SideBySide(ArtChoice::Compact);
        }
    }
    if tw >= medium_width as u128 + 9 + sw {
        return LayoutChoice::SideBySide(ArtChoice::Medium);
    }
    if let Some((_, ch)) = compact {
        if th >= ch as u128 + 2 + sh {
            return LayoutChoice::Stacked(ArtChoice::Compact);
        }
    }
    if th >= narrow_height as u128 + 2 + sh {
        return LayoutChoice::Stacked(ArtChoice::Narrow);
    }
    LayoutChoice::SectionsOnly
}

/// Columns and rows of the terminal; 80 by 24 where they are unknown.
pub open spec fn terminal_dims(terminal: Option<(u16, u16)>) -> (nat, nat) {
    match terminal {
        Some(d) => (d.0 as nat, d.1 as nat),
        None => (80, 24),
    }
}

/// The text of each line of an optional art block.
pub open spec fn opt_lines(art: Option<&[String]>) -> Option<Seq<Seq<char>>> {
    match art {
        Some(a) => Some(views(a@)),
        None => None,
    }
}

/// The art block that `a` names.
pub open spec fn art_of(
    a: ArtChoice,
    wide: Seq<Seq<char>>,
    medium: Seq<Seq<char>>,
    narrow: Seq<Seq<char>>,
    compact: Option<Seq<Seq<char>>>,
) -> Seq<Seq<char>> {
    match a {
        ArtChoice::Wide => wide,
        ArtChoice::Medium => medium,
        ArtChoice::Narrow => narrow,
        ArtChoice::Compact => match compact {
            Some(x) => x,
            None => Seq::empty(),
        },
    }
}

/// Width and number of lines of the compact art, if any.
pub open spec fn compact_dims(compact: Option<Seq<Seq<char>>>) -> Option<(nat, nat)> {
    match compact {
        Some(a) => Some((max_width(a), a.len())),
        None => None,
    }
}

/// The layout that a terminal of the given size gets.
pub open spec fn layout_for(
    wide: Seq<Seq<char>>,
    medium: Seq<Seq<char>>,
    narrow: Seq<Seq<char>>,
    secs: Seq<Section>,
    compact: Option<Seq<Seq<char>>>,
    terminal: Option<(u16, u16)>,
) -> LayoutChoice {
    choose_layout(
        max_width(wide),
        max_width(medium),
        narrow.len(),
        compact_dims(compact),
        sections_width(secs),
        stack_height(secs),
        terminal_dims(terminal).0,
        terminal_dims(terminal).1,
    )
}

/// The text of the whole layout.
pub open spec fn layout_text(
    c: ColorConfig,
    wide: Seq<Seq<char>>,
    medium: Seq<Seq<char>>,
    narrow: Seq<Seq<char>>,
    secs: Seq<Section>,
    compact: Option<Seq<Seq<char>>>,
    terminal: Option<(u16, u16)>,
) -> Seq<char> {
    let sw = sections_width(secs);
    let free = stack_rows(c, secs, sw as usize);
    match layout_for(wide, medium, narrow, secs, compact, terminal) {
        LayoutChoice::SideBySide(a) => side_by_side_text(
            box_rows(c, art_of(a, wide, medium, narrow, compact), None, None, Some(free.len() as usize), true),
            free,
        ),
        LayoutChoice::Stacked(a) => {
            let art = art_of(a, wide, medium, narrow, compact);
            let w = nat_max(max_width(art), sw) as usize;
            lines_text(box_rows(c, art, None, Some(w), None, true)) + lines_text(
                stack_rows(c, secs, unified_width(secs, Some(w)) as usize),
            )
        },
        LayoutChoice::SectionsOnly => lines_text(free),
    }
}

/// The sizes involved in a layout fit the machine's integers.
pub open spec fn layout_within_limits(
    wide: Seq<Seq<char>>,
    medium: Seq<Seq<char>>,
    narrow: Seq<Seq<char>>,
    secs: Seq<Section>,
    compact: Option<Seq<Seq<char>>>,
) -> bool {
    let arts = seq![wide, medium, narrow, art_of(ArtChoice::Compact, wide, medium, narrow, compact)];
    forall|i: int|
        0 <= i < 4 ==> {
            &&& beside_width(max_width(#[trigger] arts[i]), sections_width(secs)) <= usize::MAX
            &&& above_height(arts[i].len(), stack_height(secs)) <= usize::MAX
        }
}

/// Widest title or `key: value` row over `sections`.
pub(crate) fn sections_content_width(sections: &[Section]) -> (w: usize)
    requires
        sections_width(sections@) <= usize::MAX,
    ensures
        w == sections_width(sections@),
{
    let n = sections.len();
    let mut widest: usize = 0;
    let mut i: usize = 0;
    while i < n
        invariant
            i <= n,
            n == sections@.len(),
            sections_width(sections@) <= usize::MAX,
            widest == sections_width(sections@.take(i as int)),
        decreases n - i,
    {
        let section = &sections[i];
        proof {
            lemma_sections_width_prefix(sections@, i + 1);
            lemma_section_fits(sections@, i as int);
        }
        let title_chars = char_count(section.title.as_str());
        let m = section.lines.len();
        let mut rows_widest: usize = 0;
        let mut j: usize = 0;
        while j < m
            invariant
                j <= m,
                m == section.lines@.len(),
                rows_width(section.lines@) <= usize::MAX,
                rows_widest == rows_width(section.lines@.take(j as int)),
            decreases m - j,
        {
            proof {
                lemma_rows_width_prefix(section.lines@, j + 1);
            }
            let w = visible_len(section.lines[j].0.as_str()) + 2 + visible_len(
                section.lines[j].1.as_str(),
            );
            if w > rows_widest {
                rows_widest = w;
            }
            j = j + 1;
        }
        assert(section.lines@.take(m as int) =~= section.lines@);
        if title_chars > widest {
            widest = title_chars;
        }
        if rows_widest > widest {
            widest = rows_widest;
        }
        i = i + 1;
    }
    assert(sections@.take(n as int) =~= sections@);
    widest
}

proof fn lemma_rows_width_prefix(lines: Seq<(String, String)>, j: int)
    requires
        0 < j <= lines.len(),
    ensures
        rows_width(lines.take(j)) == nat_max(rows_width(lines.take(j - 1)), pair_width(lines[j - 1])),
        rows_width(lines.take(j)) <= rows_width(lines),
    decreases lines.len(),
{
    assert(lines.take(j).drop_last() =~= lines.take(j - 1));
    if j < lines.len() {
        lemma_rows_width_prefix(lines.drop_last(), j);
        assert(lines.drop_last().take(j) =~= lines.take(j));
    } else {
        assert(lines.take(j) =~= lines);
    }
}

proof fn lemma_stack_height_prefix(secs: Seq<Section>, i: int)
    requires
        0 < i <= secs.len(),
    ensures
        stack_height(secs.take(i)) == stack_height(secs.take(i - 1)) + secs[i - 1].lines@.len() + 2,
        stack_height(secs.take(i)) <= stack_height(secs),
    decreases secs.len(),
{
    assert(secs.take(i).drop_last() =~= secs.take(i - 1));
    if i < secs.len() {
        lemma_stack_height_prefix(secs.drop_last(), i);
        assert(secs.drop_last().take(i) =~= secs.take(i));
    } else {
        assert(secs.take(i) =~= secs);
    }
}

/// Rows of the stacked section boxes, counted without building them.
pub(crate) fn sections_total_height(sections: &[Section]) -> (h: usize)
    requires
        stack_height(sections@) <= usize::MAX,
    ensures
        h == stack_height(sections@),
{
    let n = sections.len();
    let mut total: usize = 0;
    let mut i: usize = 0;
    while i < n
        invariant
            i <= n,
            n == sections@.len(),
            stack_height(sections@) <= usize::MAX,
            total == stack_height(sections@.take(i as int)),
        decreases n - i,
    {
        proof {
            lemma_stack_height_prefix(sections@, i + 1);
        }
        total = total + sections[i].lines.len() + 2;
        i = i + 1;
    }
    assert(sections@.take(n as int) =~= sections@);
    total
}

/// Each section's rows and borders are counted in the stack's height.
pub proof fn lemma_section_height(secs: Seq<Section>, j: int)
    requires
        0 <= j < secs.len(),
    ensures
        secs[j].lines@.len() + 2 <= stack_height(secs),
    decreases secs.len(),
{
    if j < secs.len() - 1 {
        lemma_section_height(secs.drop_last(), j);
    }
}

/// The bounds of `layout_within_limits`, one by one.
proof fn lemma_layout_limits(
    wide: Seq<Seq<char>>,
    medium: Seq<Seq<char>>,
    narrow: Seq<Seq<char>>,
    secs: Seq<Section>,
    compact: Option<Seq<Seq<char>>>,
)
    requires
        layout_within_limits(wide, medium, narrow, secs, compact),
    ensures
        sections_width(secs) + 9 <= usize::MAX,
        stack_height(secs) + 2 <= usize::MAX,
        forall|a: ArtChoice|
            beside_width(max_width(#[trigger] art_of(a, wide, medium, narrow, compact)), sections_width(secs))
                <= usize::MAX && above_height(art_of(a, wide, medium, narrow, compact).len(), stack_height(secs))
                <= usize::MAX,
{
    let arts = seq![wide, medium, narrow, art_of(ArtChoice::Compact, wide, medium, narrow, compact)];
    assert(arts[0] == wide && arts[1] == medium && arts[2] == narrow);
    assert(arts[3] == art_of(ArtChoice::Compact, wide, medium, narrow, compact));
}

/// The art block that `a` names; the narrow one stands in for a missing compact one.
fn pick_art<'a>(
    a: ArtChoice,
    wide_art: &'a [String],
    medium_art: &'a [String],
    narrow_art: &'a [String],
    smol_art: Option<&'a [String]>,
) -> (art: &'a [String])
    requires
        a == ArtChoice::Compact ==> smol_art is Some,
    ensures
        views(art@) == art_of(a, views(wide_art@), views(medium_art@), views(narrow_art@), opt_lines(smol_art)),
{
    match a {
        ArtChoice::Wide => wide_art,
        ArtChoice::Medium => medium_art,
        ArtChoice::Narrow => narrow_art,
        ArtChoice::Compact => match smol_art {
            Some(x) => x,
            None => narrow_art,
        },
    }
}

/// Lays out the art and the sections for a terminal of `terminal` columns and
/// rows (80 by 24 where unknown): the first layout of `choose_layout` that
/// fits, with the section boxes at one common width.
pub fn draw_layout(
    wide_art: &[String],
    medium_art: &[String],
    narrow_art: &[String],
    sections: &[Section],
    smol_art: Option<&[String]>,
    terminal: Option<(u16, u16)>,
    colors: &ColorConfig,
) -> (output: String)
    requires
        layout_within_limits(
            views(wide_art@),
            views(medium_art@),
            views(narrow_art@),
            sections@,
            opt_lines(smol_art),
        ),
    ensures
        output@ == layout_text(
            *colors,
            views(wide_art@),
            views(medium_art@),
            views(narrow_art@),
            sections@,
            opt_lines(smol_art),
            terminal,
        ),
{
    let ghost wide = views(wide_art@);
    let ghost medium = views(medium_art@);
    let ghost narrow = views(narrow_art@);
    let ghost compact = opt_lines(smol_art);
    proof {
        lemma_layout_limits(wide, medium, narrow, sections@, compact);
    }
    let wide_art_width = art_width(wide_art);
    let medium_art_width = art_width(medium_art);
    let compact_sizes: Option<(usize, usize)> = match smol_art {
        Some(a) => Some((art_width(a), a.len())),
        None => None,
    };
    let sections_width_now = sections_content_width(sections);
    let sections_height = sections_total_height(sections);
    let (terminal_width, terminal_height): (usize, usize) = match terminal {
        Some((cols, rows)) => (cols as usize, rows as usize),
        None => (80, 24),
    };
    let choice = select_layout(
        wide_art_width,
        medium_art_width,
        narrow_art.len(),
        compact_sizes,
        sections_width_now,
        sections_height,
        terminal_width,
        terminal_height,
    );
    assert(choice == layout_for(wide, medium, narrow, sections@, compact, terminal)) by {
        assert(narrow_art@.len() == narrow.len());
    }
    proof {
        assert forall|j: int| 0 <= j < sections@.len() implies #[trigger] sections@[j].lines@.len()
            + 2 <= usize::MAX by {
            lemma_section_height(sections@, j);
        }
    }

    let mut output = String::new();
    match choice {
        LayoutChoice::SideBySide(a) => {
            let art = pick_art(a, wide_art, medium_art, narrow_art, smol_art);
            let sections_box = build_sections_lines(sections, None, colors);
            let art_box = build_box(art, None, None, Some(sections_box.len()), true, colors);
            render_side_by_side(art_box.as_slice(), sections_box.as_slice(), &mut output);
        },
        LayoutChoice::Stacked(a) => {
            let art = pick_art(a, wide_art, medium_art, narrow_art, smol_art);
            let art_w = art_width(art);
            let stacked_width = if art_w >= sections_width_now {
                art_w
            } else {
                sections_width_now
            };
            let art_box = build_box(art, None, Some(stacked_width), None, true, colors);
            let sections_box = build_sections_lines(sections, Some(stacked_width), colors);
            render_stacked(art_box.as_slice(), sections_box.as_slice(), &mut output);
        },
        LayoutChoice::SectionsOnly => {
            let sections_box = build_sections_lines(sections, None, colors);
            write_lines(sections_box.as_slice(), &mut output);
        },
    }
    output
}

proof fn lemma_views_push(v: Seq<String>, s: String)
    ensures
        views(v.push(s)) =~= views(v).push(s@),
{
}

/// No line is wider than the widest.
pub proof fn lemma_max_width_bound(lines: Seq<Seq<char>>, j: int)
    requires
        0 <= j < lines.len(),
    ensures
        visible_width(lines[j]) <= max_width(lines),
    decreases lines.len(),
{
    if j < lines.len() - 1 {
        lemma_max_width_bound(lines.drop_last(), j);
    }
}

} // verus!
