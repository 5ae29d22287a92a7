use nowayprompt::config::Labels;
use nowayprompt::frontend::tty::{
    clear_and_home, mode_name_str, parse_input, render_button, render_content, render_pin_row,
    render_screen, tty_input_effects, tty_mode_step, utf8_seq_len, window_title_sequence, Attr,
    ModeStep, PinEdit, TtyInput,
};
use nowayprompt::frontend::{Event, FrontendError, InterfaceMode};

#[test]
fn parse_enter() {
    assert_eq!(parse_input(b"\r"), vec![TtyInput::Enter]);
    assert_eq!(parse_input(b"\n"), vec![TtyInput::Enter]);
}

#[test]
fn parse_backspace() {
    assert_eq!(parse_input(b"\x7f"), vec![TtyInput::Backspace]);
}

#[test]
fn parse_utf8_codepoint() {
    assert_eq!(
        parse_input(b"\xC3\xA9"),
        vec![TtyInput::Codepoint('\u{00e9}')]
    );
}

#[test]
fn parse_escape_sequence_unknown() {
    assert_eq!(parse_input(b"\x1b[A"), vec![TtyInput::Unknown]);
}

#[test]
fn parse_standalone_escape() {
    assert_eq!(parse_input(b"\x1b"), vec![TtyInput::Escape]);
}

#[test]
fn parse_alt_key_unknown() {
    assert_eq!(parse_input(b"\x1ba"), vec![TtyInput::Unknown]);
}

#[test]
fn parse_multiple_ascii() {
    assert_eq!(
        parse_input(b"abc"),
        vec![
            TtyInput::Codepoint('a'),
            TtyInput::Codepoint('b'),
            TtyInput::Codepoint('c'),
        ]
    );
}

#[test]
fn parse_ctrl_sequences() {
    assert_eq!(parse_input(b"\x03"), vec![TtyInput::Cc]);
    assert_eq!(parse_input(b"\x15"), vec![TtyInput::Cu]);
    assert_eq!(parse_input(b"\x17"), vec![TtyInput::Cw]);
    assert_eq!(parse_input(b"\x08"), vec![TtyInput::CBackspace]);
}

#[test]
fn render_pin_row_filled_and_empty() {
    let mut out = Vec::new();
    let mut line = 0;
    render_pin_row(&mut out, 8, 3, &mut line, 24);
    let s = String::from_utf8_lossy(&out);
    assert!(s.contains(" > ***_____"), "got: {s:?}");
    assert_eq!(line, 2);
}

#[test]
fn render_pin_row_empty() {
    let mut out = Vec::new();
    let mut line = 0;
    render_pin_row(&mut out, 8, 0, &mut line, 24);
    let s = String::from_utf8_lossy(&out);
    assert!(s.contains(" > ________"), "got: {s:?}");
}

#[test]
fn render_pin_row_capped() {
    let mut out = Vec::new();
    let mut line = 0;
    render_pin_row(&mut out, 8, 10, &mut line, 24);
    let s = String::from_utf8_lossy(&out);
    assert!(s.contains(" > ********"), "got: {s:?}");
}

#[test]
fn render_terminal_too_small() {
    let mut out: Vec<u8> = Vec::new();
    clear_and_home(&mut out);
    out.extend_from_slice(b"\x1b[1;31m");
    out.extend_from_slice(b"Terminal too small!");
    let s = String::from_utf8_lossy(&out);
    assert!(s.contains("Terminal too small!"));
    assert!(s.contains("\x1b[1;31m"));
}

#[test]
fn render_button_contains_label() {
    let mut out = Vec::new();
    let mut line = 0;
    render_button(&mut out, "enter", "OK", &mut line, 80, 24);
    let s = String::from_utf8_lossy(&out);
    assert!(s.contains("enter: OK"), "got: {s:?}");
}

#[test]
fn render_content_with_bg_pads() {
    let mut out = Vec::new();
    let mut line = 0;
    let attr = Attr {
        bold: true,
        fg_black: true,
        bg_green: true,
        ..Attr::default()
    };
    render_content(&mut out, "Hi", attr, &mut line, 10, 24);
    let s = String::from_utf8_lossy(&out);
    assert!(s.contains(" Hi       "), "got: {s:?}");
    assert_eq!(line, 2);
}

// --- further cases ---

#[test]
fn utf8_lead_lengths() {
    assert_eq!(utf8_seq_len(b'a'), 1);
    assert_eq!(utf8_seq_len(0xc3), 2);
    assert_eq!(utf8_seq_len(0xe2), 3);
    assert_eq!(utf8_seq_len(0xf0), 4);
    assert_eq!(utf8_seq_len(0x80), 0);
    assert_eq!(utf8_seq_len(0xf8), 0);
}

#[test]
fn parse_mixed_stream() {
    assert_eq!(
        parse_input(b"a\x1b[1;5Db\xff\xe2\x82\xacz\x1b"),
        vec![
            TtyInput::Codepoint('a'),
            TtyInput::Unknown,
            TtyInput::Codepoint('b'),
            TtyInput::Unknown,
            TtyInput::Codepoint('\u{20ac}'),
            TtyInput::Codepoint('z'),
            TtyInput::Escape,
        ]
    );
    // A truncated sequence at the end is unknown, byte by byte.
    assert_eq!(
        parse_input(b"\xe2\x82"),
        vec![TtyInput::Unknown, TtyInput::Unknown]
    );
    // An unterminated CSI swallows the rest.
    assert_eq!(parse_input(b"\x1b[12"), vec![TtyInput::Unknown]);
}

#[test]
fn input_effects_stop_at_first_event() {
    let inputs = parse_input(b"ab\x7f\x15c\rd");
    let (event, edits) = tty_input_effects(&inputs, InterfaceMode::GetPin, false);
    assert_eq!(event, Event::UserOk);
    assert_eq!(
        edits,
        vec![
            PinEdit::Append('a'),
            PinEdit::Append('b'),
            PinEdit::DeleteBack,
            PinEdit::Reset,
            PinEdit::Append('c'),
        ]
    );
    // Outside the PIN prompt no edit is asked for.
    let (event, edits) = tty_input_effects(&inputs, InterfaceMode::Message, false);
    assert_eq!(event, Event::UserOk);
    assert!(edits.is_empty());
    // Ctrl-C is "not OK" only when that button exists.
    let cc = parse_input(b"\x03");
    assert_eq!(tty_input_effects(&cc, InterfaceMode::GetPin, true).0, Event::UserNotOk);
    assert_eq!(tty_input_effects(&cc, InterfaceMode::GetPin, false).0, Event::UserAbort);
    assert_eq!(
        tty_input_effects(&parse_input(b"\x1b"), InterfaceMode::Message, false).0,
        Event::UserAbort
    );
    assert_eq!(
        tty_input_effects(&parse_input(b"xy"), InterfaceMode::GetPin, false).0,
        Event::NoEvent
    );
}

#[test]
fn tty_mode_steps_and_messages() {
    match tty_mode_step(InterfaceMode::GetPin, InterfaceMode::GetPin) {
        Err(FrontendError::InvalidMode(m)) => assert_eq!(m, "already in mode GetPin"),
        _ => panic!("expected InvalidMode"),
    }
    match tty_mode_step(InterfaceMode::GetPin, InterfaceMode::Message) {
        Err(FrontendError::InvalidMode(m)) => assert_eq!(m, "cannot enter Message from GetPin"),
        _ => panic!("expected InvalidMode"),
    }
    assert!(matches!(
        tty_mode_step(InterfaceMode::Message, InterfaceMode::NoPrompt),
        Ok(ModeStep::Leave)
    ));
    assert!(matches!(
        tty_mode_step(InterfaceMode::NoPrompt, InterfaceMode::GetPin),
        Ok(ModeStep::Enter)
    ));
    assert_eq!(mode_name_str(InterfaceMode::NoPrompt), "None");
}

#[test]
fn window_title_sequences() {
    assert_eq!(
        window_title_sequence(Some("Unlock")),
        b"\x1b]2;wayprompt TTY fallback: Unlock\x07".to_vec()
    );
    assert_eq!(
        window_title_sequence(None),
        b"\x1b]2;wayprompt TTY fallback\x07".to_vec()
    );
}

#[test]
fn render_content_multiline_and_cutoff() {
    let mut out = Vec::new();
    let mut line = 3;
    render_content(&mut out, "a\nb\n", Attr::default(), &mut line, 80, 24);
    assert_eq!(out, b"\x1b[0m\x1b[4;1H a\x1b[5;1H b".to_vec());
    assert_eq!(line, 6);
    // Rows from the height on are not drawn and end the block.
    let mut out = Vec::new();
    let mut line = 1;
    render_content(&mut out, "x\ny\nz", Attr::default(), &mut line, 80, 2);
    assert_eq!(out, b"\x1b[0m\x1b[2;1H x".to_vec());
    assert_eq!(line, 2);
}

#[test]
fn render_button_indents_continuation_lines() {
    let mut out = Vec::new();
    let mut line = 0;
    render_button(&mut out, "C-c", "No\nway", &mut line, 80, 24);
    assert_eq!(out, b"\x1b[0m\x1b[1;1H C-c: No\x1b[2;1H      way".to_vec());
    assert_eq!(line, 2);
}

#[test]
fn render_screen_layout() {
    let labels = Labels {
        title: Some("T".to_string()),
        prompt: Some("PIN".to_string()),
        ok: Some("OK".to_string()),
        ..Labels::default()
    };
    let out = render_screen(&labels, 4, InterfaceMode::GetPin, 2, 6, 24);
    let expected: &[u8] = b"\x1b[2J\x1b[H\x1b[1;30;42m\x1b[1;1H T    \x1b[1m\x1b[3;1H PIN\x1b[1m\x1b[5;1H > **__\x1b[0m\x1b[7;1H enter: OK\x1b[0m";
    assert_eq!(out, expected.to_vec());
    let small = render_screen(&labels, 4, InterfaceMode::GetPin, 2, 4, 24);
    assert_eq!(small, b"\x1b[2J\x1b[H\x1b[1;31mTerminal too small!".to_vec());
}
