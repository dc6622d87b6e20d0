use slowfetch::colorcontrol::{color_border, color_key, color_title, color_value};
use slowfetch::configloader::ColorConfig;
use slowfetch::renderer::{
    build_box, build_sections_lines, draw_layout, select_layout, ArtChoice, LayoutChoice, Section,
};
use slowfetch::width::visible_len;

fn strings(items: &[&str]) -> Vec<String> {
    items.iter().map(|s| s.to_string()).collect()
}

fn palette() -> ColorConfig {
    ColorConfig::default()
}

fn strip(s: &str) -> String {
    let mut out = String::new();
    let mut inside = false;
    for c in s.chars() {
        if c == '\x1b' {
            inside = true;
        } else if inside {
            if c == 'm' {
                inside = false;
            }
        } else {
            out.push(c);
        }
    }
    out
}

#[test]
fn visible_len_ignores_color_codes() {
    assert_eq!(visible_len("\x1b[31mhi\x1b[0m"), 2);
    assert_eq!(visible_len(&strip("\x1b[31mhi\x1b[0m")), 2);
}

#[test]
fn visible_len_of_plain_ascii_is_byte_length() {
    let s = "Kernel: 6.18";
    assert_eq!(visible_len(s), s.len());
    assert_eq!(visible_len(""), 0);
}

#[test]
fn visible_len_counts_multibyte_characters_once() {
    assert_eq!(visible_len("╭──╮"), 4);
    assert_eq!(visible_len("Tūī"), 3);
}

#[test]
fn visible_len_unterminated_escape_hides_the_rest() {
    assert_eq!(visible_len("ab\x1b[31cd"), 2);
}

#[test]
fn color_functions_wrap_in_truecolor_codes() {
    let c = palette();
    assert_eq!(color_border(&c, "x"), "\x1b[38;2;255;121;198mx\x1b[39m");
    assert_eq!(color_title(&c, "T"), "\x1b[38;2;255;121;198mT\x1b[39m");
    assert_eq!(color_key(&c, "k"), "\x1b[38;2;189;147;249mk\x1b[39m");
    assert_eq!(color_value(&c, "v"), "\x1b[38;2;139;233;253mv\x1b[39m");
    assert_eq!(visible_len(&color_value(&c, "value")), 5);
}

#[test]
fn scenario_a_left_aligned_box() {
    let c = palette();
    let rows = build_box(&strings(&["a", "bb"]), None, None, None, false, &c);
    assert_eq!(rows.len(), 4);
    for row in &rows {
        assert_eq!(visible_len(row), 6);
    }
    assert_eq!(strip(&rows[0]), "╭────╮");
    assert_eq!(strip(&rows[1]), "│ a  │");
    assert_eq!(strip(&rows[2]), "│ bb │");
    assert_eq!(strip(&rows[3]), "╰────╯");
}

#[test]
fn scenario_b_title_only_box() {
    let c = palette();
    let rows = build_box(&[], Some("X"), None, None, false, &c);
    assert_eq!(rows.len(), 2);
    assert_eq!(strip(&rows[0]), "╭ X ╮");
    assert_eq!(strip(&rows[1]), "╰───╯");
    assert_eq!(visible_len(&rows[0]), 5);
    assert_eq!(visible_len(&rows[1]), 5);
}

#[test]
fn box_grows_to_target_size_and_centres() {
    let c = palette();
    let rows = build_box(&strings(&["ab"]), None, Some(5), Some(6), true, &c);
    assert_eq!(rows.len(), 6);
    let plain: Vec<String> = rows.iter().map(|r| strip(r)).collect();
    assert_eq!(plain[0], "╭───────╮");
    assert_eq!(plain[1], "│       │");
    assert_eq!(plain[2], "│  ab   │");
    assert_eq!(plain[3], "│       │");
    assert_eq!(plain[4], "│       │");
    assert_eq!(plain[5], "╰───────╯");
}

#[test]
fn box_title_odd_dash_goes_right() {
    let c = palette();
    let rows = build_box(&strings(&["abcdefg"]), Some("Core"), None, None, false, &c);
    assert_eq!(strip(&rows[0]), "╭─ Core ──╮");
    assert_eq!(strip(&rows[1]), "│ abcdefg │");
    for row in &rows {
        assert_eq!(visible_len(row), 11);
    }
}

#[test]
fn box_width_never_below_target_or_content() {
    let c = palette();
    let rows = build_box(&strings(&["abcdefgh"]), Some("T"), Some(3), None, false, &c);
    assert_eq!(visible_len(&rows[0]), 12);
    let rows = build_box(&strings(&["ab"]), Some("Title"), Some(10), None, false, &c);
    assert_eq!(visible_len(&rows[0]), 14);
}

#[test]
fn centred_lines_split_padding_evenly() {
    let c = palette();
    let rows = build_box(&strings(&["a", "abcd", "abc"]), None, None, None, true, &c);
    assert_eq!(strip(&rows[1]), "│  a   │");
    assert_eq!(strip(&rows[2]), "│ abcd │");
    assert_eq!(strip(&rows[3]), "│ abc  │");
}

#[test]
fn coloured_lines_keep_the_width_invariant() {
    let c = palette();
    let lines = strings(&["\x1b[31mred\x1b[0m", "plain text"]);
    let rows = build_box(&lines, Some("Hi"), None, None, true, &c);
    for row in &rows {
        assert_eq!(visible_len(row), 14);
    }
}

#[test]
fn sections_share_one_width() {
    let c = palette();
    let sections = vec![
        Section::new("Core", vec![("OS".to_string(), "Linux".to_string())]),
        Section::new(
            "Hardware",
            vec![
                ("CPU".to_string(), "Ryzen 7".to_string()),
                ("Memory".to_string(), "32 GiB".to_string()),
            ],
        ),
    ];
    let rows = build_sections_lines(&sections, None, &c);
    assert_eq!(rows.len(), 7);
    for row in &rows {
        assert_eq!(visible_len(row), 18);
    }
    assert_eq!(strip(&rows[0]), "╭───── Core ─────╮");
    assert_eq!(strip(&rows[1]), "│ OS: Linux      │");
    assert_eq!(strip(&rows[3]), "╭─── Hardware ───╮");
    assert_eq!(strip(&rows[5]), "│ Memory: 32 GiB │");
}

#[test]
fn sections_take_a_larger_target_width() {
    let c = palette();
    let sections = vec![Section::new("A", vec![("k".to_string(), "v".to_string())])];
    let rows = build_sections_lines(&sections, Some(10), &c);
    assert_eq!(rows.len(), 3);
    for row in &rows {
        assert_eq!(visible_len(row), 14);
    }
    assert!(build_sections_lines(&[], None, &c).is_empty());
}

fn art(width: usize, height: usize, ch: char) -> Vec<String> {
    (0..height).map(|_| std::iter::repeat(ch).take(width).collect()).collect()
}

fn core_section() -> Vec<Section> {
    vec![Section::new("Core", vec![("OS".to_string(), "Linux".to_string())])]
}

#[test]
fn scenario_c_stacked_layout() {
    let c = palette();
    let wide = art(30, 6, '@');
    let medium = art(25, 5, '%');
    let narrow = art(5, 3, '#');
    let out = draw_layout(&wide, &medium, &narrow, &core_section(), None, Some((40, 24)), &c);
    let lines: Vec<&str> = out.lines().collect();
    assert_eq!(lines.len(), 3 + 2 + 1 + 2);
    assert!(out.ends_with('\n'));
    assert!(strip(lines[1]).contains("#####"));
    assert!(strip(lines[6]).contains("OS: Linux"));
    for line in &lines {
        assert_eq!(visible_len(line), 13);
    }
}

#[test]
fn scenario_d_sections_only() {
    let c = palette();
    let wide = art(30, 6, '@');
    let medium = art(25, 5, '%');
    let narrow = art(5, 3, '#');
    let out = draw_layout(&wide, &medium, &narrow, &core_section(), None, Some((10, 5)), &c);
    let lines: Vec<&str> = out.lines().collect();
    assert_eq!(lines.len(), 3);
    assert!(!out.contains('@') && !out.contains('%') && !out.contains('#'));
    assert!(strip(lines[1]).contains("OS: Linux"));
}

#[test]
fn wide_art_beside_sections_when_room() {
    let c = palette();
    let wide = art(30, 6, '@');
    let medium = art(25, 5, '%');
    let narrow = art(5, 3, '#');
    let out = draw_layout(&wide, &medium, &narrow, &core_section(), None, Some((60, 24)), &c);
    let lines: Vec<&str> = out.lines().collect();
    assert_eq!(lines.len(), 8);
    assert!(strip(lines[1]).contains("@@@"));
    assert!(strip(lines[1]).ends_with("│ OS: Linux │"));
    assert_eq!(visible_len(lines[0]), 34 + 1 + 13);
}

#[test]
fn compact_and_medium_art_tiers() {
    let c = palette();
    let wide = art(30, 6, '@');
    let medium = art(20, 5, '%');
    let narrow = art(5, 3, '#');
    let smol = art(8, 2, '&');
    let out = draw_layout(&wide, &medium, &narrow, &core_section(), Some(&smol), Some((30, 24)), &c);
    assert!(out.contains('&') && !out.contains('@') && !out.contains('%'));
    let out = draw_layout(&wide, &medium, &narrow, &core_section(), None, Some((40, 24)), &c);
    assert!(out.contains('%') && !out.contains('@'));
    let out = draw_layout(&wide, &medium, &narrow, &core_section(), Some(&smol), Some((20, 24)), &c);
    let lines: Vec<&str> = out.lines().collect();
    assert_eq!(lines.len(), 4 + 3);
    assert!(out.contains('&'));
}

#[test]
fn unknown_terminal_is_eighty_by_twenty_four() {
    let c = palette();
    let out = draw_layout(&[], &[], &[], &[], None, None, &c);
    assert!(!out.is_empty());
    let known = draw_layout(&[], &[], &[], &[], None, Some((80, 24)), &c);
    assert_eq!(out, known);
    let out = draw_layout(&[], &[], &[], &core_section(), None, None, &c);
    assert!(!out.is_empty());
}

#[test]
fn layout_table_order() {
    assert_eq!(
        select_layout(10, 5, 3, None, 10, 4, 29, 24),
        LayoutChoice::SideBySide(ArtChoice::Wide)
    );
    assert_eq!(
        select_layout(10, 5, 3, Some((2, 2)), 10, 4, 21, 24),
        LayoutChoice::SideBySide(ArtChoice::Compact)
    );
    assert_eq!(
        select_layout(10, 5, 3, None, 10, 4, 24, 24),
        LayoutChoice::SideBySide(ArtChoice::Medium)
    );
    assert_eq!(
        select_layout(10, 5, 3, Some((9, 2)), 10, 4, 20, 8),
        LayoutChoice::Stacked(ArtChoice::Compact)
    );
    assert_eq!(
        select_layout(10, 5, 3, None, 10, 4, 20, 9),
        LayoutChoice::Stacked(ArtChoice::Narrow)
    );
    assert_eq!(select_layout(10, 5, 3, None, 10, 4, 20, 8), LayoutChoice::SectionsOnly);
}

use slowfetch::imagerender::draw_image_layout;

#[test]
fn image_beside_sections_when_wide() {
    let c = palette();
    let layout = draw_image_layout(&core_section(), Some((80, 24)), &c);
    let lines: Vec<&str> = layout.text.lines().collect();
    assert_eq!(lines.len(), 3);
    assert_eq!(layout.image, Some((6, 1)));
    assert_eq!(visible_len(lines[0]), 10 + 1 + 13);
    assert!(strip(lines[1]).ends_with("│ OS: Linux │"));
}

#[test]
fn image_above_sections_when_narrow() {
    let c = palette();
    let layout = draw_image_layout(&core_section(), Some((20, 24)), &c);
    let lines: Vec<&str> = layout.text.lines().collect();
    assert_eq!(layout.image, Some((9, 6)));
    assert_eq!(lines.len(), 8 + 3);
    for line in &lines {
        assert_eq!(visible_len(line), 13);
    }
}

#[test]
fn no_image_when_no_room() {
    let c = palette();
    let layout = draw_image_layout(&core_section(), Some((20, 5)), &c);
    assert_eq!(layout.image, None);
    assert_eq!(layout.text.lines().count(), 3);
}
