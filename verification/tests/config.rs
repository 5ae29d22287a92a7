use nowayprompt::config::{
    field_eq, parse_colour, Colour, Config, ConfigError, WaylandColours, WaylandUi,
};

#[test]
fn field_eq_hyphen_matches_underscore() {
    assert!(field_eq("test_test", "test-test"));
    assert!(!field_eq("test_testA", "test-testB"));
    assert!(field_eq("pin_square_size", "pin-square-size"));
    assert!(!field_eq("pin_square", "pin_squar"));
    assert!(!field_eq("border", "bordery"));
    assert!(!field_eq("a_b", "a_b"));
    assert!(field_eq("a_b", "a-b"));
}

#[test]
fn parse_colour_opaque_white() {
    let c = parse_colour("0xffffff").unwrap();
    assert_eq!(
        c,
        Colour {
            red: 65535,
            green: 65535,
            blue: 65535,
            alpha: 65535
        }
    );
}

#[test]
fn parse_colour_opaque_black() {
    let c = parse_colour("0x000000").unwrap();
    assert_eq!(
        c,
        Colour {
            red: 0,
            green: 0,
            blue: 0,
            alpha: 65535
        }
    );
}

#[test]
fn parse_colour_with_alpha_premultiplied() {
    let c = parse_colour("0xff000080").unwrap();
    assert_eq!(c.alpha, (128.0_f32 / 255.0 * 65535.0) as u16);
    assert_eq!(c.red, c.alpha);
    assert_eq!(c.green, 0);
    assert_eq!(c.blue, 0);
}

#[test]
fn parse_colour_legacy_default_error_text() {
    let c = parse_colour("0xe0002b").unwrap();
    assert_eq!(c.alpha, 65535);
    let expected_red = (224.0_f32 / 255.0 * 65535.0) as u16;
    assert_eq!(c.red, expected_red);
    let expected_blue = (43.0_f32 / 255.0 * 65535.0) as u16;
    assert_eq!(c.blue, expected_blue);
    assert_eq!(c.green, 0);
}

#[test]
fn parse_colour_invalid() {
    assert!(parse_colour("red").is_err());
    assert!(parse_colour("0xGGG").is_err());
    assert!(parse_colour("0xff").is_err());
    assert!(parse_colour("0xffffffXX").is_err());
    assert!(parse_colour("1xabcdef").is_err());
}

#[test]
fn config_defaults_match_legacy() {
    let cfg = Config::default();
    let default_colours = WaylandColours::default();
    assert_eq!(cfg.wayland_colours, default_colours);
    assert_eq!(cfg.wayland_ui.vertical_padding, 10);
    assert_eq!(cfg.wayland_ui.horizontal_padding, 15);
    assert_eq!(cfg.wayland_ui.pin_square_size, 18);
    assert_eq!(cfg.wayland_ui.pin_square_amount, 16);
    assert_eq!(cfg.wayland_ui.corner_radius, 10);
}

#[test]
fn parse_full_config_sample() {
    let input = "\
[general]
# This is a comment
vertical-padding = 10;
horizontal-padding = 15;
button-inner-padding = 5;
pin-square-size = 18;
pin-square-amount = 16;
border = 2;
corner-radius = 10;
font-regular = sans:size=14;

[colours]
background = 0xffffff;
border = 0x000000;
text = 0x000000;
error-text = 0xe0002b;
pin-background = 0xd0d0d0;
ok-button = 0xd5f200;
cancel-button = 0xff4647;
";
    let mut cfg = Config::default();
    cfg.parse_from(input.as_bytes(), "test.ini").unwrap();

    assert_eq!(cfg.wayland_ui.vertical_padding, 10);
    assert_eq!(cfg.wayland_ui.horizontal_padding, 15);
    assert_eq!(cfg.wayland_ui.button_inner_padding, 5);
    assert_eq!(cfg.wayland_ui.pin_square_size, 18);
    assert_eq!(cfg.wayland_ui.pin_square_amount, 16);
    assert_eq!(cfg.wayland_ui.border, 2);
    assert_eq!(cfg.wayland_ui.corner_radius, 10);
    assert_eq!(cfg.wayland_ui.font_regular.as_deref(), Some("sans:size=14"));

    assert_eq!(
        cfg.wayland_colours.background,
        parse_colour("0xffffff").unwrap()
    );
    assert_eq!(
        cfg.wayland_colours.border,
        parse_colour("0x000000").unwrap()
    );
    assert_eq!(cfg.wayland_colours.text, parse_colour("0x000000").unwrap());
    assert_eq!(
        cfg.wayland_colours.error_text,
        parse_colour("0xe0002b").unwrap()
    );
    assert_eq!(
        cfg.wayland_colours.pin_background,
        parse_colour("0xd0d0d0").unwrap()
    );
    assert_eq!(
        cfg.wayland_colours.ok_button,
        parse_colour("0xd5f200").unwrap()
    );
    assert_eq!(
        cfg.wayland_colours.cancel_button,
        parse_colour("0xff4647").unwrap()
    );
}

#[test]
fn parse_inline_comment_and_no_semicolon() {
    let input = "\
[general]
border = 2  # thickness
corner-radius = 8
";
    let mut cfg = Config::default();
    cfg.parse_from(input.as_bytes(), "test.ini").unwrap();
    assert_eq!(cfg.wayland_ui.border, 2);
    assert_eq!(cfg.wayland_ui.corner_radius, 8);
}

#[test]
fn parse_unknown_section_errors() {
    let input = "[unknown]\nfoo = 1;\n";
    let mut cfg = Config::default();
    let err = cfg.parse_from(input.as_bytes(), "test.ini").unwrap_err();
    match err {
        ConfigError::BadConfig { line, message, .. } => {
            assert_eq!(line, 1);
            assert!(message.contains("unknown section"), "message: {message}");
        }
        other => panic!("expected BadConfig, got {other:?}"),
    }
}

#[test]
fn parse_assignment_outside_section_errors() {
    let input = "foo = 1;\n";
    let mut cfg = Config::default();
    let err = cfg.parse_from(input.as_bytes(), "test.ini").unwrap_err();
    match err {
        ConfigError::BadConfig { line, message, .. } => {
            assert_eq!(line, 1);
            assert!(message.contains("assignments must be part of a section"));
        }
        other => panic!("expected BadConfig, got {other:?}"),
    }
}

#[test]
fn parse_unknown_variable_in_general_errors() {
    let input = "[general]\nnonexistent = 1;\n";
    let mut cfg = Config::default();
    let err = cfg.parse_from(input.as_bytes(), "test.ini").unwrap_err();
    match err {
        ConfigError::BadConfig { line, message, .. } => {
            assert_eq!(line, 2);
            assert!(message.contains("unknown variable"));
        }
        other => panic!("expected BadConfig, got {other:?}"),
    }
}

#[test]
fn parse_invalid_integer_errors() {
    let input = "[general]\nborder = wide;\n";
    let mut cfg = Config::default();
    let err = cfg.parse_from(input.as_bytes(), "test.ini").unwrap_err();
    match err {
        ConfigError::BadConfig { line, message, .. } => {
            assert_eq!(line, 2);
            assert!(message.contains("invalid positive integer"));
        }
        other => panic!("expected BadConfig, got {other:?}"),
    }
}

#[test]
fn parse_invalid_colour_errors() {
    let input = "[colours]\nbackground = red;\n";
    let mut cfg = Config::default();
    let err = cfg.parse_from(input.as_bytes(), "test.ini").unwrap_err();
    match err {
        ConfigError::BadConfig { line, message, .. } => {
            assert_eq!(line, 2);
            assert!(message.contains("bad colour"));
        }
        other => panic!("expected BadConfig, got {other:?}"),
    }
}

#[test]
fn parse_unknown_variable_in_colours_errors() {
    let input = "[colours]\nunknown_colour = 0x000000;\n";
    let mut cfg = Config::default();
    let err = cfg.parse_from(input.as_bytes(), "test.ini").unwrap_err();
    match err {
        ConfigError::BadConfig { line, message, .. } => {
            assert_eq!(line, 2);
            assert!(message.contains("unknown variable"));
        }
        other => panic!("expected BadConfig, got {other:?}"),
    }
}

#[test]
fn parse_empty_input_keeps_defaults() {
    let mut cfg = Config::default();
    cfg.parse_from("".as_bytes(), "test.ini").unwrap();
    assert_eq!(cfg.wayland_ui, WaylandUi::default());
    assert_eq!(cfg.wayland_colours, WaylandColours::default());
}

#[test]
fn parse_blank_and_comment_lines_skipped() {
    let input = "\n  \n# comment\n   # spaced comment\n";
    let mut cfg = Config::default();
    cfg.parse_from(input.as_bytes(), "test.ini").unwrap();
}

// --- further cases ---

/// Every 8-bit channel/alpha pair matches the floating-point premultiply
/// the configuration format is defined by.
#[test]
fn parse_colour_matches_float_premultiply_exhaustively() {
    for a in 0..=255u32 {
        for c in 0..=255u32 {
            let hex = format!("0x{c:02x}0000{a:02x}");
            let col = parse_colour(&hex).unwrap();
            let alpha = (a as f32 / 255.0 * 65535.0) as u16;
            let red = ((c as f32 / 255.0 * 65535.0) * (alpha as f32 / 65535.0)) as u16;
            assert_eq!(col.alpha, alpha, "alpha for {hex}");
            assert_eq!(col.red, red, "red for {hex}");
        }
    }
}

#[test]
fn parse_colour_error_messages() {
    let e = parse_colour("red").unwrap_err();
    match e {
        ConfigError::BadConfig { .. } | ConfigError::Io(_) => {}
    }
    assert!(e.message().len() > 0);
}

#[test]
fn config_error_message_formats() {
    let e = ConfigError::BadConfig {
        path: "a.ini".to_string(),
        line: 12,
        message: "bad".to_string(),
    };
    assert_eq!(e.message(), "a.ini:12: bad");
    assert_eq!(
        ConfigError::Io("boom".to_string()).message(),
        "config I/O error: boom"
    );
}

#[test]
fn parse_stops_at_invalid_utf8() {
    let mut cfg = Config::default();
    let err = cfg
        .parse_from(b"[general]\nborder = 3;\n\xff\ncorner-radius = 4;\n", "x.ini")
        .unwrap_err();
    assert_eq!(err, ConfigError::Io("stream did not contain valid UTF-8".to_string()));
    assert_eq!(cfg.wayland_ui.border, 3);
    assert_eq!(cfg.wayland_ui.corner_radius, 10);
}

#[test]
fn reset_clears_only_labels() {
    let mut cfg = Config::default();
    cfg.labels.title = Some("t".to_string());
    cfg.tty_name = Some("/dev/tty".to_string());
    cfg.reset();
    assert_eq!(cfg.labels.title, None);
    assert_eq!(cfg.tty_name.as_deref(), Some("/dev/tty"));
}

#[test]
fn config_path_prefers_xdg_config_home() {
    let paths = Config::config_path(Some("/x/cfg"), Some("/home/u"));
    assert_eq!(
        paths,
        vec![
            "/x/cfg/nowayprompt/config.ini".to_string(),
            "/x/cfg/wayprompt/config.ini".to_string(),
        ]
    );
}

#[test]
fn config_path_falls_back_to_home_then_etc() {
    let paths = Config::config_path(Some(""), Some("/home/u/"));
    assert_eq!(paths[0], "/home/u/.config/nowayprompt/config.ini");
    assert_eq!(paths[1], "/home/u/.config/wayprompt/config.ini");
    let paths = Config::config_path(None, Some(""));
    assert_eq!(paths[0], "/etc/nowayprompt/config.ini");
    assert_eq!(paths[1], "/etc/wayprompt/config.ini");
}

#[test]
fn parse_colour_rejects_a_sign() {
    let e = parse_colour("0x+fffff").unwrap_err();
    assert_eq!(e.message(), ":0: bad colour: '0x+fffff' (invalid hex digits)");
    assert!(parse_colour("0x+fffffff").is_err());
    assert!(parse_colour("0xAbCdEf").is_ok());
}
