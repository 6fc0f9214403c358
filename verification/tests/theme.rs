use zfetch::theme::{
    detect_by_env, detect_terminal_theme, escape_reply_step, is_dark, parse_osc_response,
    ReplyStep, TerminalColor, TerminalTheme,
};

#[test]
fn luminance_threshold() {
    assert!(is_dark(0, 0, 0));
    assert!(!is_dark(255, 255, 255));
}

#[test]
fn luminance_boundary() {
    // 299 * 128 + 587 * 128 + 114 * 128 = 128_000 exactly: not dark
    assert!(!is_dark(128, 128, 128));
    assert!(is_dark(127, 128, 128));
    let c = TerminalColor::new(10, 20, 30);
    assert!(c.dark);
    assert_eq!((c.r, c.g, c.b), (10, 20, 30));
}

#[test]
fn colorfgbg_gives_theme() {
    let t = detect_by_env(Some("15;0")).expect("theme");
    assert_eq!((t.fg.r, t.fg.g, t.fg.b), (255, 255, 255));
    assert_eq!((t.bg.r, t.bg.g, t.bg.b), (0, 0, 0));
    assert!(t.bg.dark);
    assert!(!t.fg.dark);
    assert!(detect_by_env(Some("15")).is_none());
    assert!(detect_by_env(Some("x;0")).is_none());
    assert!(detect_by_env(Some("16;0")).is_none());
    assert!(detect_by_env(None).is_none());
}

#[test]
fn osc_reply_parsed() {
    let reply = b"\x1b]10;rgb:ffff/ffff/ffff\x1b\\\x1b]11;rgb:0000/0000/0000\x1b\\";
    let t = parse_osc_response(reply).expect("theme");
    assert_eq!((t.fg.r, t.fg.g, t.fg.b), (255, 255, 255));
    assert_eq!((t.bg.r, t.bg.g, t.bg.b), (0, 0, 0));
    assert!(parse_osc_response(b"\x1b]10;rgb:ffff/ffff/ffff\x1b\\").is_none());
    assert!(parse_osc_response(&[0xff, 0xfe]).is_none());
}

#[test]
fn reply_steps() {
    let reply = b"\x1b]10;rgb:ffff/ffff/ffff\x1b\\\x1b]11;rgb:0000/0000/0000\x1b\\";
    assert!(matches!(escape_reply_step(reply, 5), ReplyStep::Theme(_)));
    assert!(matches!(escape_reply_step(b"\x1b]10;", 5), ReplyStep::ReadMore));
    assert!(matches!(escape_reply_step(b"\x1b]10;", 0), ReplyStep::Failed));
    let full = vec![b'a'; 1023];
    assert!(matches!(escape_reply_step(&full, 1), ReplyStep::Failed));
}

#[test]
fn forced_env_ignores_terminal_reply() {
    let reply = TerminalTheme {
        fg: TerminalColor::new(0, 0, 0),
        bg: TerminalColor::new(255, 255, 255),
    };
    let t = detect_terminal_theme(true, Some(reply), Some("15;0")).expect("theme");
    assert!(t.bg.dark);
    let t = detect_terminal_theme(false, Some(reply), Some("15;0")).expect("theme");
    assert!(!t.bg.dark);
    assert!(detect_terminal_theme(true, Some(reply), None).is_none());
}
