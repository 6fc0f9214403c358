use zfetch::colors::{
    find_logo_colors, parse_color_list, parse_color_spec, try_parse_color_list,
    try_parse_color_spec, try_parse_color_token, try_parse_hex_color, ColorSystem,
    MAX_LOGO_COLORS,
};
use zfetch::config::Config;
use zfetch::theme::{TerminalColor, TerminalTheme};

#[test]
fn parse_basic_named_colors() {
    assert_eq!(parse_color_spec("blue"), Some("34".to_string()));
    assert_eq!(parse_color_spec("bright_red"), Some("91".to_string()));
}

#[test]
fn parse_hex_formats() {
    assert_eq!(
        parse_color_spec("#ff0000"),
        Some("38;2;255;0;0".to_string())
    );
    assert_eq!(parse_color_spec("#f00"), Some("38;2;255;0;0".to_string()));
}

#[test]
fn parse_rgb_formats() {
    assert_eq!(
        parse_color_spec("rgb:255;128;0"),
        Some("38;2;255;128;0".to_string())
    );
    assert_eq!(
        parse_color_spec("rgb(255,128,0)"),
        Some("38;2;255;128;0".to_string())
    );
}

#[test]
fn parse_palette() {
    assert_eq!(parse_color_spec("256:160"), Some("38;5;160".to_string()));
    assert_eq!(parse_color_spec("196"), Some("38;5;196".to_string()));
}

#[test]
fn readme_color_formats() {
    assert_eq!(parse_color_spec("green"), Some("32".to_string()));
    assert_eq!(parse_color_spec("bright_magenta"), Some("95".to_string()));
    assert_eq!(parse_color_spec("94"), Some("94".to_string()));
    assert_eq!(parse_color_spec("bold+94"), Some("1;94".to_string()));
    assert_eq!(parse_color_spec("1;32"), Some("1;32".to_string()));
    assert_eq!(parse_color_spec("color256:39"), Some("38;5;39".to_string()));
    assert_eq!(parse_color_spec("178"), Some("38;5;178".to_string()));
    assert_eq!(parse_color_spec("#ff8800"), Some("38;2;255;136;0".to_string()));
    assert_eq!(
        parse_color_spec("rgb(255,136,0)"),
        Some("38;2;255;136;0".to_string())
    );
    assert_eq!(
        parse_color_spec("38;2;255;136;0"),
        Some("38;2;255;136;0".to_string())
    );
}

#[test]
fn unknown_color_is_none() {
    assert_eq!(parse_color_spec("not-a-color"), None);
    assert_eq!(parse_color_spec(""), None);
}

#[test]
fn color_list_keeps_first_nine() {
    let list = parse_color_list("1 2 3 4 5 6 7 8 9 10 11", MAX_LOGO_COLORS);
    assert_eq!(list.len(), 9);
    assert_eq!(list[0], "1");
    assert_eq!(list[8], "9");
    let list = parse_color_list("150 151 152 153 154 155 156 157 158 159 160", MAX_LOGO_COLORS);
    assert_eq!(list.len(), 9);
    assert_eq!(list[0], "38;5;150");
    assert_eq!(list[8], "38;5;158");
}

#[test]
fn bare_numbers_raw_or_palette() {
    assert_eq!(parse_color_spec("0"), Some("0".to_string()));
    assert_eq!(parse_color_spec("31"), Some("31".to_string()));
    assert_eq!(parse_color_spec("39"), Some("39".to_string()));
    assert_eq!(parse_color_spec("107"), Some("107".to_string()));
    assert_eq!(parse_color_spec("38"), Some("38;5;38".to_string()));
    assert_eq!(parse_color_spec("108"), Some("38;5;108".to_string()));
    assert_eq!(parse_color_spec("255"), Some("38;5;255".to_string()));
    assert_eq!(parse_color_spec("256"), None);
    assert_eq!(parse_color_spec("bold+178"), Some("1;38;5;178".to_string()));
}

#[test]
fn default_config_leaves_colors_automatic() {
    let c = Config::default();
    assert_eq!(c.logo_color, None);
    assert_eq!(c.color, None);
    assert_eq!(c.show_gpu, Some(true));
    let sys = ColorSystem::new("ubuntu", "Ubuntu", &c, None, true);
    assert_eq!(sys.logo_slot(1), "\u{1b}[31m");
    assert_eq!(sys.value_color(), "");
}

#[test]
fn color_list_accepts_commas_and_spaces() {
    let list = parse_color_list("red, #00ff00 blue", MAX_LOGO_COLORS);
    assert_eq!(
        list,
        vec!["31".to_string(), "38;2;0;255;0".to_string(), "34".to_string()]
    );
}

#[test]
fn logo_colors_found_by_lowercase_trimmed_name() {
    let e = find_logo_colors("  Ubuntu ").expect("ubuntu row");
    assert_eq!(e.colors, vec!["31", "37"]);
    assert!(find_logo_colors("").is_none());
    assert!(find_logo_colors("plan9").is_none());
}

fn plain_config() -> Config {
    Config {
        show_distro: None,
        show_distro_id: None,
        show_kernel: None,
        show_cpu: None,
        show_gpu: None,
        show_memory: None,
        show_swap: None,
        show_local_ip: None,
        show_battery: None,
        show_storage: None,
        show_uptime: None,
        logo_color: None,
        color: None,
        color_keys: None,
        color_title: None,
        box_outline_color: None,
        show_user_host: None,
    }
}

#[test]
fn colors_off_without_terminal() {
    let c = ColorSystem::new("ubuntu", "Ubuntu", &plain_config(), None, false);
    assert!(!c.enabled());
    assert_eq!(c.reset(), "");
    assert_eq!(c.logo_slot(1), "");
    assert_eq!(c.key_color(), "");
    assert_eq!(c.title_color(), "");
    assert_eq!(c.value_color(), "");
    assert_eq!(c.box_color(), "");
}

#[test]
fn distro_palette_and_slot_fallback() {
    let c = ColorSystem::new("ubuntu", "Ubuntu", &plain_config(), None, true);
    assert!(c.enabled());
    assert_eq!(c.reset(), "\u{1b}[0m");
    assert_eq!(c.logo_slot(1), "\u{1b}[31m");
    assert_eq!(c.logo_slot(2), "\u{1b}[37m");
    // slot 0 and slots past the palette use the first color
    assert_eq!(c.logo_slot(0), "\u{1b}[31m");
    assert_eq!(c.logo_slot(7), "\u{1b}[31m");
    assert_eq!(c.key_color(), "\u{1b}[31m");
    assert_eq!(c.title_color(), "\u{1b}[31m");
    assert_eq!(c.value_color(), "");
}

#[test]
fn config_overrides_palette_and_keys() {
    let mut cfg = plain_config();
    cfg.logo_color = Some("green #0000ff".to_string());
    cfg.color_keys = Some("bold+cyan".to_string());
    cfg.color = Some("#FFFFFF".to_string());
    cfg.box_outline_color = Some("bright_blue".to_string());
    let c = ColorSystem::new("nixos", "NixOS", &cfg, None, true);
    assert_eq!(c.logo_slot(1), "\u{1b}[32m");
    assert_eq!(c.logo_slot(2), "\u{1b}[38;2;0;0;255m");
    assert_eq!(c.key_color(), "\u{1b}[1;36m");
    assert_eq!(c.value_color(), "\u{1b}[38;2;255;255;255m");
    assert_eq!(c.box_color(), "\u{1b}[94m");
}

#[test]
fn outline_follows_theme_when_unset() {
    let dark = TerminalTheme {
        fg: TerminalColor::new(255, 255, 255),
        bg: TerminalColor::new(0, 0, 0),
    };
    let light = TerminalTheme {
        fg: TerminalColor::new(0, 0, 0),
        bg: TerminalColor::new(255, 255, 255),
    };
    let c = ColorSystem::new("debian", "Debian", &plain_config(), Some(&dark), true);
    assert_eq!(c.box_color(), "\u{1b}[94m");
    let c = ColorSystem::new("debian", "Debian", &plain_config(), Some(&light), true);
    assert_eq!(c.box_color(), "\u{1b}[34m");
    let c = ColorSystem::new("debian", "Debian", &plain_config(), None, true);
    assert_eq!(c.box_color(), "");
}

#[test]
fn unknown_distro_uses_unknown_row() {
    let c = ColorSystem::new("plan9", "Plan 9", &plain_config(), None, true);
    assert_eq!(c.logo_slot(1), "\u{1b}[37m");
    assert_eq!(c.logo_slot(3), "\u{1b}[33m");
    // no key color in the row: the second slot's code
    assert_eq!(c.key_color(), "\u{1b}[30m");
}

#[test]
fn checked_forms_report_panicking_inputs() {
    assert_eq!(try_parse_hex_color("ff8800"), Ok(Some((255, 136, 0))));
    assert_eq!(try_parse_hex_color("f80"), Ok(Some((255, 136, 0))));
    assert_eq!(try_parse_hex_color("zz"), Ok(None));
    assert_eq!(try_parse_hex_color("a\u{e9}\u{e9}a"), Err(()));
    assert_eq!(try_parse_color_token(" Bold "), Ok(Some("1".to_string())));
    assert_eq!(try_parse_color_token("#a\u{e9}\u{e9}a"), Err(()));
    assert_eq!(try_parse_color_spec("bold+94"), Ok(Some("1;94".to_string())));
    assert_eq!(try_parse_color_spec("nope"), Ok(None));
    assert_eq!(try_parse_color_spec("#a\u{e9}\u{e9}a"), Err(()));
    assert_eq!(
        try_parse_color_list("red 178", MAX_LOGO_COLORS),
        Ok(vec!["31".to_string(), "38;5;178".to_string()])
    );
    assert_eq!(try_parse_color_list("red #a\u{e9}\u{e9}a", MAX_LOGO_COLORS), Err(()));
    let mut cfg = plain_config();
    assert!(ColorSystem::try_new("ubuntu", "Ubuntu", &cfg, None, true).is_some());
    cfg.color = Some("#a\u{e9}\u{e9}a".to_string());
    assert!(ColorSystem::try_new("ubuntu", "Ubuntu", &cfg, None, true).is_none());
    assert!(ColorSystem::try_new("ubuntu", "Ubuntu", &cfg, None, false).is_some());
}
