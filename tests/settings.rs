use slowfetch::configloader::{parse_config, parse_hex_color, ColorConfig, Config, OsArtSetting};

#[test]
fn hex_colors_with_and_without_hash_and_quotes() {
    assert_eq!(parse_hex_color("#FF79C6"), Some((0xFF, 0x79, 0xC6)));
    assert_eq!(parse_hex_color("ff79c6"), Some((0xFF, 0x79, 0xC6)));
    assert_eq!(parse_hex_color(" \"#00bfFF\" "), Some((0x00, 0xBF, 0xFF)));
}

#[test]
fn hex_colors_rejected() {
    assert_eq!(parse_hex_color("#FF79C"), None);
    assert_eq!(parse_hex_color("#GG0000"), None);
    assert_eq!(parse_hex_color("##FF0000"), None);
    assert_eq!(parse_hex_color(""), None);
    assert_eq!(parse_hex_color("#ÿÿÿÿÿÿ"), None);
}

#[test]
fn hex_color_plus_sign_reads_as_from_str_radix_does() {
    assert_eq!(parse_hex_color("+F0A0B"), Some((0x0F, 0x0A, 0x0B)));
}

#[test]
fn default_config_values() {
    let c = Config::default();
    assert!(matches!(c.os_art, OsArtSetting::Disabled));
    assert_eq!(c.colors, ColorConfig::default());
    assert_eq!(c.colors.key, (0xBD, 0x93, 0xF9));
    assert!(c.custom_art.is_none());
    assert!(!c.image);
    assert!(c.image_path.is_none());
}

#[test]
fn config_colors_table() {
    let text = "# theme\n[colors]\nborder = \"#010203\"\nkey=\"#0A0B0C\"\nart_9 = \"#FFFFFF\"\nbogus = \"#123456\"\nvalue = \"nothex\"\n";
    let c = parse_config(text, None);
    assert_eq!(c.colors.border, (1, 2, 3));
    assert_eq!(c.colors.key, (10, 11, 12));
    assert_eq!(c.colors.art_9, (255, 255, 255));
    assert_eq!(c.colors.value, ColorConfig::default().value);
    assert_eq!(c.colors.title, ColorConfig::default().title);
}

#[test]
fn config_colors_only_inside_table() {
    let text = "border = \"#010203\"\n[other]\nborder = \"#010203\"\n";
    let c = parse_config(text, None);
    assert_eq!(c.colors.border, ColorConfig::default().border);
}

#[test]
fn config_settings_outside_table() {
    let text = "os_art = \"arch\"\ncustom_art = \"~/art.txt\"\nimage = true\nimage_path = \"/tmp/pic.png\"\n[colors]\nimage = false\n";
    let c = parse_config(text, Some("/home/me"));
    assert!(matches!(c.os_art, OsArtSetting::Specific(ref s) if s == "arch"));
    assert_eq!(c.custom_art.as_deref(), Some("/home/me/art.txt"));
    assert!(c.image);
    assert_eq!(c.image_path.as_deref(), Some("/tmp/pic.png"));
}

#[test]
fn config_os_art_true_false() {
    assert!(matches!(parse_config("os_art = true", None).os_art, OsArtSetting::Auto));
    assert!(matches!(parse_config("os_art = true\nos_art=false", None).os_art, OsArtSetting::Disabled));
    assert!(matches!(parse_config("os_art = \"\"", None).os_art, OsArtSetting::Disabled));
    assert!(matches!(parse_config("os_art = maybe", None).os_art, OsArtSetting::Disabled));
}

#[test]
fn config_paths_need_quotes_and_home() {
    let c = parse_config("custom_art = ~/art.txt\nimage_path = \"~/p.png\"", None);
    assert!(c.custom_art.is_none());
    assert_eq!(c.image_path.as_deref(), Some("~/p.png"));
}

#[test]
fn config_crlf_and_comments() {
    let c = parse_config("  # comment\r\n\r\nimage = true\r\n", None);
    assert!(c.image);
    let c = parse_config("image = truthy", None);
    assert!(!c.image);
}
