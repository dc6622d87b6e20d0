use slowfetch::coremodules::{os, pretty_name};
use slowfetch::fontmodule::{find_font, font_for_terminal, is_nerd_font, FontSources};
use slowfetch::helpers::capitalize;
use slowfetch::image::get_default_image_path;

#[test]
fn os_release_pretty_name() {
    let content = "NAME=\"Arch Linux\"\nPRETTY_NAME=\"Arch Linux\"\nID=arch\n";
    assert_eq!(pretty_name(content), "Arch Linux");
    assert_eq!(pretty_name("PRETTY_NAME='Fedora 41'\r\nPRETTY_NAME=\"Other\""), "Fedora 41");
    assert_eq!(pretty_name("PRETTY_NAME=PRETTY_NAME=x"), "x");
    assert_eq!(pretty_name("ID=void\n"), "Linux");
    assert_eq!(pretty_name("ID=x\nPRETTY_NAME=\"Last\""), "Last");
}

#[test]
fn os_prefers_cache() {
    assert_eq!(os(Some("Cached OS".to_string()), Some("PRETTY_NAME=New")), "Cached OS");
    assert_eq!(os(None, Some("PRETTY_NAME=New")), "New");
    assert_eq!(os(None, None), "Linux");
}

fn sources() -> FontSources {
    FontSources {
        kitty: Some("JetBrains Mono".to_string()),
        alacritty: Some("Hack".to_string()),
        foot: None,
        ghostty: Some("Iosevka NF".to_string()),
        konsole: None,
        gnome_terminal: None,
    }
}

#[test]
fn font_of_the_running_terminal_first() {
    assert_eq!(font_for_terminal("ghostty", &sources()), "Iosevka NF");
    assert_eq!(find_font("Alacritty", &sources()), "Hack");
    assert_eq!(find_font("GHOSTTY", &sources()), "Iosevka NF");
}

#[test]
fn font_fallback_order() {
    assert_eq!(find_font("foot", &sources()), "JetBrains Mono");
    assert_eq!(find_font("xterm", &sources()), "JetBrains Mono");
    let none = FontSources {
        kitty: None,
        alacritty: None,
        foot: None,
        ghostty: None,
        konsole: Some("Noto Mono".to_string()),
        gnome_terminal: Some("Ubuntu Mono".to_string()),
    };
    assert_eq!(find_font("xterm", &none), "Noto Mono");
    let empty = FontSources {
        kitty: None,
        alacritty: None,
        foot: None,
        ghostty: None,
        konsole: None,
        gnome_terminal: None,
    };
    assert_eq!(find_font("kitty", &empty), "unknown");
}

#[test]
fn nerd_font_names() {
    assert!(is_nerd_font("JetBrainsMono NF"));
    assert!(is_nerd_font("Hack Nerd Font Mono"));
    assert!(!is_nerd_font("Hack Nerd"));
    assert!(!is_nerd_font("nf lower"));
    assert!(!is_nerd_font(""));
}

#[test]
fn capitalize_first_letter() {
    assert_eq!(capitalize("bash"), "Bash");
    assert_eq!(capitalize("ßtraße"), "SStraße");
    assert_eq!(capitalize(""), "");
    assert_eq!(capitalize("Zsh"), "Zsh");
}

#[test]
fn default_image_path_value() {
    assert_eq!(
        get_default_image_path(),
        "/home/tui/Rice/Rust Projects/SlowfetchV2/src/assets/default/slowfetch.png"
    );
}

use slowfetch::fontmodule::{parse_alacritty_toml, parse_alacritty_yaml, strip_style_suffix};

#[test]
fn alacritty_toml_family() {
    let text = "[window]\nopacity = 0.9\n[font.normal]\nfamily = \"JetBrains Mono\"\nstyle = \"Regular\"\n";
    assert_eq!(parse_alacritty_toml(text).as_deref(), Some("JetBrains Mono"));
    let text = "[font]\nsize = 11\nfamily='Hack'\n";
    assert_eq!(parse_alacritty_toml(text).as_deref(), Some("Hack"));
}

#[test]
fn alacritty_toml_family_outside_font_table_ignored() {
    let text = "family = \"Nope\"\n[font]\n[colors]\nfamily = \"Nope\"\n";
    assert_eq!(parse_alacritty_toml(text), None);
    assert_eq!(parse_alacritty_toml(""), None);
}

#[test]
fn alacritty_yaml_family() {
    let text = "font:\n  normal:\n    family: \"Fira Code\"\n    style: Regular\n";
    assert_eq!(parse_alacritty_yaml(text).as_deref(), Some("Fira Code"));
    let text = "# font:\nfont:\n  size: 11\n  # normal:\n  normal:\n    family: Hack\r\n";
    assert_eq!(parse_alacritty_yaml(text).as_deref(), Some("Hack"));
}

#[test]
fn alacritty_yaml_block_ends_at_unindented_line() {
    let text = "font:\n  normal:\nwindow:\n    family: Hack\n";
    assert_eq!(parse_alacritty_yaml(text), None);
}

#[test]
fn style_suffix_removed_once() {
    assert_eq!(strip_style_suffix("JetBrains Mono Regular"), "JetBrains Mono");
    assert_eq!(strip_style_suffix("Iosevka Bold Italic"), "Iosevka Bold");
    assert_eq!(strip_style_suffix("Hack"), "Hack");
    assert_eq!(strip_style_suffix("Noto Sans ExtraBold"), "Noto Sans");
}

use slowfetch::hardwaremodules::{cpu, cpu_model_name};

#[test]
fn cpu_model_drops_core_count_processor_and_graphics() {
    let info = "processor\t: 0\nvendor_id\t: AuthenticAMD\nmodel name\t: AMD Ryzen 7 7800X3D 8-Core Processor\nflags\t: fpu\n";
    assert_eq!(cpu_model_name(info).as_deref(), Some("AMD Ryzen 7 7800X3D"));
    let info = "model name : AMD Ryzen 5 5600G with Radeon Graphics\n";
    assert_eq!(cpu_model_name(info).as_deref(), Some("AMD Ryzen 5 5600G"));
    let info = "model name: Intel(R) Core(TM) i5   W/ Intel UHD\n";
    assert_eq!(cpu_model_name(info).as_deref(), Some("Intel(R) Core(TM) i5"));
}

#[test]
fn cpu_model_missing() {
    assert_eq!(cpu_model_name("vendor_id : x\n"), None);
    assert_eq!(cpu_model_name("model name without colon\n"), None);
    assert_eq!(cpu_model_name("model name :\n").as_deref(), Some(""));
}

#[test]
fn cpu_line_prefers_cache_and_adds_boost() {
    let info = "model name\t: AMD Ryzen 9 7950X 16-Core Processor\n";
    assert_eq!(cpu(Some("Cached".to_string()), Some(info), " @ 5.88GHz"), "Cached");
    assert_eq!(cpu(None, Some(info), " @ 5.88GHz"), "AMD Ryzen 9 7950X @ 5.88GHz");
    assert_eq!(cpu(None, Some("flags : x\n"), " @ 1.00GHz"), "unknown");
    assert_eq!(cpu(None, None, ""), "unknown");
}

use slowfetch::coremodules::{decimal_string, format_uptime};
use slowfetch::image::supports_kitty_graphics;

#[test]
fn uptime_in_hours_and_minutes() {
    assert_eq!(format_uptime(12 * 3600 + 4 * 60 + 59), "12h 4m");
    assert_eq!(format_uptime(59), "0m");
    assert_eq!(format_uptime(3599), "59m");
    assert_eq!(format_uptime(3600), "1h 0m");
    assert_eq!(decimal_string(0), "0");
    assert_eq!(decimal_string(u64::MAX), "18446744073709551615");
}

#[test]
fn kitty_graphics_detection() {
    assert!(supports_kitty_graphics(true, None, None));
    assert!(supports_kitty_graphics(false, Some("xterm-kitty"), None));
    assert!(supports_kitty_graphics(false, Some("xterm-ghostty"), None));
    assert!(supports_kitty_graphics(false, Some("xterm"), Some("Ghostty")));
    assert!(!supports_kitty_graphics(false, Some("xterm-256color"), Some("WezTerm")));
    assert!(!supports_kitty_graphics(false, None, None));
}

use slowfetch::fontmodule::{font_from_config, FontConfig};

#[test]
fn terminal_font_lines() {
    let kitty = "# font_family Commented\nfont_family\nfont_family   JetBrains Mono  \n";
    assert_eq!(font_from_config(FontConfig::Kitty, kitty).as_deref(), Some("JetBrains Mono"));
    let foot = "[main]\nfont=Iosevka Term:size=12\n";
    assert_eq!(font_from_config(FontConfig::Foot, foot).as_deref(), Some("Iosevka Term"));
    let ghostty = "font-size = 12\nfont-family = \nfont-family = Hack Nerd Font\n";
    assert_eq!(
        font_from_config(FontConfig::Ghostty, ghostty).as_deref(),
        Some("Hack Nerd Font")
    );
    let konsole = "[Appearance]\nFont=Noto Mono,10,-1,5,50,0,0,0,0,0\n";
    assert_eq!(font_from_config(FontConfig::Konsole, konsole).as_deref(), Some("Noto Mono"));
    assert_eq!(font_from_config(FontConfig::Kitty, "background #000\n"), None);
}

use slowfetch::hardwaremodules::{gpu_from_glxinfo, gpu_from_vulkaninfo};

#[test]
fn vulkaninfo_device_name() {
    let out = b"Devices:\n========\nGPU0:\n\tapiVersion = 1.3\n\tdeviceName = AMD Radeon RX 9070 XT (RADV GFX1201)\n\tdriverID = x\n";
    assert_eq!(gpu_from_vulkaninfo(out).as_deref(), Some("AMD Radeon RX 9070 XT"));
    let cpu = b"\tdeviceName = AMD Ryzen 7 7800X3D 8-Core Processor\n";
    assert_eq!(gpu_from_vulkaninfo(cpu), None);
    let soft = b"\tdeviceName = llvmpipe (LLVM 17.0.6, 256 bits)";
    assert_eq!(gpu_from_vulkaninfo(soft), None);
    assert_eq!(gpu_from_vulkaninfo(b"nothing here"), None);
    assert_eq!(gpu_from_vulkaninfo(b"deviceName without separator"), None);
}

#[test]
fn glxinfo_renderer() {
    let out = b"direct rendering: Yes\nOpenGL renderer string: NVIDIA GeForce RTX 4070/PCIe/SSE2\nOpenGL core profile\n";
    assert_eq!(gpu_from_glxinfo(out).as_deref(), Some("NVIDIA GeForce RTX 4070/PCIe/SSE2"));
    let out = b"OpenGL renderer string: AMD Radeon Graphics (radeonsi, gfx1036, LLVM 17)";
    assert_eq!(gpu_from_glxinfo(out).as_deref(), Some("AMD Radeon Graphics"));
    assert_eq!(gpu_from_glxinfo(b"OpenGL renderer string: llvmpipe (LLVM 15)\n"), None);
    assert_eq!(gpu_from_glxinfo(b"OpenGL renderer string: \xff\xfe\n"), None);
}

use slowfetch::hardwaremodules::{lookup_pci_device, lookup_pci_vendor};

const PCI_IDS: &str = "# comment\n1002  Advanced Micro Devices, Inc. [AMD/ATI]\n\t7550  Navi 48 [Radeon RX 9070 XT]\n\t\t1002 0001  Subsystem\n10de  NVIDIA Corporation\n\t2786  AD104 [GeForce RTX 4070]\n";

#[test]
fn pci_vendor_lookup() {
    assert_eq!(
        lookup_pci_vendor(PCI_IDS, "1002").as_deref(),
        Some("Advanced Micro Devices, Inc. [AMD/ATI]")
    );
    assert_eq!(lookup_pci_vendor(PCI_IDS, "10de").as_deref(), Some("NVIDIA Corporation"));
    assert_eq!(lookup_pci_vendor(PCI_IDS, "8086"), None);
}

#[test]
fn pci_device_lookup() {
    assert_eq!(
        lookup_pci_device(PCI_IDS, "1002", "7550").as_deref(),
        Some("Navi 48 [Radeon RX 9070 XT]")
    );
    assert_eq!(
        lookup_pci_device(PCI_IDS, "10de", "2786").as_deref(),
        Some("AD104 [GeForce RTX 4070]")
    );
    assert_eq!(lookup_pci_device(PCI_IDS, "1002", "2786"), None);
    assert_eq!(lookup_pci_device(PCI_IDS, "1002", "0001"), None);
}

use slowfetch::fontmodule::gnome_font_from_setting;

#[test]
fn gnome_font_settings() {
    let dump = "[:b1dcc9dd]\nfont='JetBrains Mono 12'\nuse-system-font=false\n";
    assert_eq!(
        font_from_config(FontConfig::GnomeTerminal, dump).as_deref(),
        Some("JetBrains Mono")
    );
    assert_eq!(font_from_config(FontConfig::GnomeTerminal, "font=' 12'\nfont='Hack'\n").as_deref(), Some("Hack"));
    assert_eq!(gnome_font_from_setting("'Source Code Pro 10'\n").as_deref(), Some("Source Code Pro"));
    assert_eq!(gnome_font_from_setting("''"), None);
}

use slowfetch::hardwaremodules::lspci_gpu;

#[test]
fn lspci_lines() {
    let amd = "03:00.0 \"VGA compatible controller\" \"Advanced Micro Devices, Inc. [AMD/ATI]\" \"Navi 48 [Radeon RX 9070 XT]\" -rc0 \"Sapphire\" \"Device 2430\"";
    assert_eq!(lspci_gpu(amd).as_deref(), Some("AMD Navi 48 [Radeon RX 9070 XT]"));
    let nv = "01:00.0 \"3D controller\" \"NVIDIA Corporation\" \"AD107M [GeForce RTX 4060 Max-Q]\"";
    assert_eq!(lspci_gpu(nv).as_deref(), Some("NVIDIA AD107M [GeForce RTX 4060 Max-Q]"));
    let igpu = "00:02.0 \"VGA compatible controller\" \"Intel Corporation\" \"Alder Lake-P Integrated Graphics Controller\"";
    assert_eq!(lspci_gpu(igpu), None);
    let other = "00:02.0 \"VGA compatible controller\" \"Matrox\" \"G200eR2\"";
    assert_eq!(lspci_gpu(other).as_deref(), Some("Matrox G200eR2"));
    assert_eq!(lspci_gpu("00:02.0 \"VGA compatible controller\" \"X\""), None);
}

use slowfetch::userspacemodules::terminal;

#[test]
fn terminal_names() {
    assert_eq!(terminal(true, true, false, Some("x"), None), "Kitty");
    assert_eq!(terminal(false, true, true, None, None), "Konsole");
    assert_eq!(terminal(false, false, true, None, None), "Gnome Terminal");
    assert_eq!(terminal(false, false, false, Some("ghostty"), Some("xterm")), "Ghostty");
    assert_eq!(terminal(false, false, false, None, Some("xterm-256color")), "Xterm");
    assert_eq!(terminal(false, false, false, None, Some("rxvt-unicode-color")), "Rxvt-unicode");
    assert_eq!(terminal(false, false, false, None, None), "Unknown");
}

use slowfetch::userspacemodules::editor;

#[test]
fn editor_names() {
    assert_eq!(editor(Some("/usr/bin/nvim"), Some("vim")), "\u{f0379} Nvim |  Vim");
    assert_eq!(editor(Some("/usr/bin/nvim"), Some("/bin/nvim")), "Nvim");
    assert_eq!(editor(Some("nano"), Some("/usr/bin/hx")), "Hx");
    assert_eq!(editor(None, Some("/usr/bin/nano")), "");
    assert_eq!(editor(Some("code"), None), "Code");
    assert_eq!(editor(None, None), "");
}

use slowfetch::userspacemodules::shell;

#[test]
fn shell_names_and_versions() {
    assert_eq!(
        shell(Some("/usr/bin/bash"), Some("GNU bash, version 5.2.26(1)-release (x86_64-pc-linux-gnu)")),
        "Bash 5.2.26"
    );
    assert_eq!(shell(Some("/bin/zsh"), Some("zsh 5.9 (x86_64-pc-linux-gnu)")), "Zsh 5.9");
    assert_eq!(shell(Some("/usr/bin/fish"), Some("fish, version 3.7.1-dirty")), "Fish 3.7.1");
    assert_eq!(shell(Some("/usr/bin/nu"), Some("no digits here")), "Nu");
    assert_eq!(shell(Some("/usr/bin/dash"), None), "Dash");
    assert_eq!(shell(Some("/usr/bin/"), None), "unknown");
    assert_eq!(shell(None, None), "unknown");
}
