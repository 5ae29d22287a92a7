use nowayprompt::config::Config;
use nowayprompt::frontend::{Event, Frontend, FrontendError, InterfaceMode};
use nowayprompt::protocol::assuan::{assuan_decode, dump_pin, AssuanError, AssuanMode, AssuanRepl};


/// Hands a line to the protocol and the mode it asks for to the frontend,
/// as the pinentry loop does.
fn handle_line(
    repl: &mut AssuanRepl,
    cfg: &mut Config,
    fe: &mut MockFrontend,
    line: &str,
) -> Result<(), AssuanError> {
    if let Some(mode) = repl.handle_line(cfg, line)? {
        fe.enter_mode(mode).unwrap();
    }
    Ok(())
}

#[test]
fn decode_percent_space() {
    assert_eq!(assuan_decode("foo%20bar", false).unwrap(), "foo bar");
}

#[test]
fn decode_strip_hotkey() {
    assert_eq!(assuan_decode("_Cancel", true).unwrap(), "Cancel");
}

#[test]
fn decode_keep_underscore_without_strip() {
    assert_eq!(assuan_decode("_Cancel", false).unwrap(), "_Cancel");
}

#[test]
fn decode_truncated_percent() {
    assert!(assuan_decode("foo%2", false).is_err());
}

#[test]
fn decode_invalid_hex() {
    assert!(assuan_decode("foo%ZZbar", false).is_err());
}

#[test]
fn decode_utf8_percent() {
    assert_eq!(assuan_decode("%C3%A9", false).unwrap(), "é");
}

#[test]
fn decode_empty() {
    assert_eq!(assuan_decode("", false).unwrap(), "");
}

#[test]
fn dump_pin_none() {
    let mut buf = Vec::new();
    dump_pin(&mut buf, None);
    assert_eq!(buf, b"OK\n");
}

#[test]
fn dump_pin_some() {
    let mut buf = Vec::new();
    dump_pin(&mut buf, Some(b"hunter2"));
    assert_eq!(buf, b"D hunter2\nEND\nOK\n");
}

#[test]
fn dump_pin_large_secret() {
    let secret = vec![b'A'; 1000];
    let mut buf = Vec::new();
    dump_pin(&mut buf, Some(&secret));
    assert_eq!(buf.len(), 2 + 1000 + 8);
    assert!(buf.starts_with(b"D "));
    assert!(buf.ends_with(b"\nEND\nOK\n"));
}

struct MockFrontend {
    mode: InterfaceMode,
}

impl MockFrontend {
    fn new() -> Self {
        Self {
            mode: InterfaceMode::NoPrompt,
        }
    }
}

impl Frontend for MockFrontend {
    fn init(&mut self, _cfg: &mut Config) -> Result<i32, FrontendError> {
        Ok(0)
    }

    fn deinit(&mut self) {}

    fn enter_mode(&mut self, mode: InterfaceMode) -> Result<(), FrontendError> {
        self.mode = mode;
        Ok(())
    }

    fn handle_event(&mut self) -> Result<Event, FrontendError> {
        Ok(Event::NoEvent)
    }

    fn flush(&mut self) -> Result<Option<Event>, FrontendError> {
        Ok(None)
    }

    fn no_event(&mut self) -> Result<(), FrontendError> {
        Ok(())
    }
}

fn make_repl() -> AssuanRepl {
    AssuanRepl::new(Vec::new(), 4242)
}

fn handle(repl: &mut AssuanRepl, cfg: &mut Config, fe: &mut MockFrontend, line: &str) {
    repl.get_writer().clear();
    handle_line(repl, cfg, fe, line).unwrap();
}

#[test]
fn repl_greeting() {
    let mut repl = make_repl();
    assert_eq!(
        repl.get_writer().as_slice(),
        b"OK wayprompt is pleased to meet you\n"
    );
}

#[test]
fn repl_settitle() {
    let mut repl = make_repl();
    let mut cfg = Config::default();
    let mut fe = MockFrontend::new();
    handle(&mut repl, &mut cfg, &mut fe, "SETTITLE T");
    assert_eq!(repl.get_writer().as_slice(), b"OK\n");
    assert_eq!(cfg.labels.title, Some(" T".to_string()));
}

#[test]
fn repl_getinfo_flavor() {
    let mut repl = make_repl();
    let mut cfg = Config::default();
    let mut fe = MockFrontend::new();
    handle(&mut repl, &mut cfg, &mut fe, "GETINFO flavor");
    assert_eq!(repl.get_writer().as_slice(), b"D wayprompt\nEND\nOK\n");
}

#[test]
fn repl_bye() {
    let mut repl = make_repl();
    let mut cfg = Config::default();
    let mut fe = MockFrontend::new();
    handle(&mut repl, &mut cfg, &mut fe, "BYE");
    assert_eq!(repl.get_writer().as_slice(), b"OK\n");
    assert!(!repl.is_running());
}

#[test]
fn repl_setkeyinfo() {
    let mut repl = make_repl();
    let mut cfg = Config::default();
    let mut fe = MockFrontend::new();
    handle(&mut repl, &mut cfg, &mut fe, "SETKEYINFO X");
    assert_eq!(repl.get_writer().as_slice(), b"OK\n");
}

#[test]
fn repl_settimeout_not_implemented() {
    let mut repl = make_repl();
    let mut cfg = Config::default();
    let mut fe = MockFrontend::new();
    handle(&mut repl, &mut cfg, &mut fe, "SETTIMEOUT 30");
    assert_eq!(
        repl.get_writer().as_slice(),
        b"ERR 536870981 Not implemented\n"
    );
}

#[test]
fn repl_unknown_command() {
    let mut repl = make_repl();
    let mut cfg = Config::default();
    let mut fe = MockFrontend::new();
    handle(&mut repl, &mut cfg, &mut fe, "BOGUS");
    assert_eq!(
        repl.get_writer().as_slice(),
        b"ERR 536871187 Unknown IPC command\n"
    );
}

#[test]
fn repl_help() {
    let mut repl = make_repl();
    let mut cfg = Config::default();
    let mut fe = MockFrontend::new();
    handle(&mut repl, &mut cfg, &mut fe, "HELP");
    assert_eq!(
        repl.get_writer().as_slice(),
        b"# NOP\n# SETTITLE\n# SETPROMPT\n# SETDESC\n\
          # SETERROR\n# GETPIN\n# BYE\n# OPTION\n\
          # RESET\nOK\n"
    );
}

#[test]
fn repl_option_default_ok_strips_hotkey() {
    let mut repl = make_repl();
    let mut cfg = Config::default();
    let mut fe = MockFrontend::new();
    handle(&mut repl, &mut cfg, &mut fe, "OPTION default-ok=_OK");
    assert_eq!(repl.get_writer().as_slice(), b"OK\n");
    assert_eq!(repl.default_ok(), Some("OK".to_string()));
}

#[test]
fn repl_commands_dropped_during_prompt() {
    let mut repl = make_repl();
    let mut cfg = Config::default();
    let mut fe = MockFrontend::new();
    handle(&mut repl, &mut cfg, &mut fe, "GETPIN");
    assert_eq!(repl.mode(), AssuanMode::GetPin);
    handle(&mut repl, &mut cfg, &mut fe, "NOP");
    assert_eq!(repl.get_writer().as_slice(), b"");
}

#[test]
fn repl_getpin_applies_defaults() {
    let mut repl = make_repl();
    let mut cfg = Config::default();
    let mut fe = MockFrontend::new();
    handle(&mut repl, &mut cfg, &mut fe, "OPTION default-ok=_Submit");
    handle(&mut repl, &mut cfg, &mut fe, "OPTION default-cancel=_Abort");
    handle(&mut repl, &mut cfg, &mut fe, "GETPIN");
    assert_eq!(cfg.labels.ok, Some("Submit".to_string()));
    assert_eq!(cfg.labels.cancel, Some("Abort".to_string()));
    assert_eq!(repl.mode(), AssuanMode::GetPin);
    assert_eq!(fe.mode, InterfaceMode::GetPin);
}

#[test]
fn repl_frontend_event_user_ok_getpin() {
    let mut repl = make_repl();
    let mut cfg = Config::default();
    let mut fe = MockFrontend::new();
    handle(&mut repl, &mut cfg, &mut fe, "GETPIN");
    let secret: &[u8] = b"hunter2";
    repl.get_writer().clear();
    repl.handle_frontend_event(&mut cfg, Some(secret), Event::UserOk);
    assert_eq!(repl.get_writer().as_slice(), b"D hunter2\nEND\nOK\n");
    assert_eq!(repl.mode(), AssuanMode::NoPrompt);
}

#[test]
fn repl_frontend_event_user_abort() {
    let mut repl = make_repl();
    let mut cfg = Config::default();
    let mut fe = MockFrontend::new();
    handle(&mut repl, &mut cfg, &mut fe, "GETPIN");
    repl.get_writer().clear();
    repl.handle_frontend_event(&mut cfg, None, Event::UserAbort);
    assert_eq!(
        repl.get_writer().as_slice(),
        b"ERR 83886179 Operation cancelled\n"
    );
    assert_eq!(repl.mode(), AssuanMode::NoPrompt);
}

#[test]
fn repl_message_empty_is_noop() {
    let mut repl = make_repl();
    let mut cfg = Config::default();
    let mut fe = MockFrontend::new();
    handle(&mut repl, &mut cfg, &mut fe, "MESSAGE");
    assert_eq!(repl.get_writer().as_slice(), b"OK\n");
    assert_eq!(repl.mode(), AssuanMode::NoPrompt);
}

#[test]
fn repl_option_wayland_display() {
    let mut repl = make_repl();
    let mut cfg = Config::default();
    let mut fe = MockFrontend::new();
    handle(
        &mut repl,
        &mut cfg,
        &mut fe,
        "OPTION putenv=WAYLAND_DISPLAY=wayland-1",
    );
    assert_eq!(repl.get_writer().as_slice(), b"OK\n");
    assert_eq!(cfg.wayland_display, Some("wayland-1".to_string()));
}

#[test]
fn repl_option_ttyname() {
    let mut repl = make_repl();
    let mut cfg = Config::default();
    let mut fe = MockFrontend::new();
    handle(&mut repl, &mut cfg, &mut fe, "OPTION ttyname=/dev/pts/0");
    assert_eq!(repl.get_writer().as_slice(), b"OK\n");
    assert_eq!(cfg.tty_name, Some("/dev/pts/0".to_string()));
}

#[test]
fn repl_case_insensitive() {
    let mut repl = make_repl();
    let mut cfg = Config::default();
    let mut fe = MockFrontend::new();
    handle(&mut repl, &mut cfg, &mut fe, "nop");
    assert_eq!(repl.get_writer().as_slice(), b"OK\n");
}

// --- further cases ---

#[test]
fn decode_errors_are_decode_errors() {
    match assuan_decode("%4", false) {
        Err(AssuanError::DecodeError(m)) => assert_eq!(m, "malformed percent escape"),
        _ => panic!("expected a decode error"),
    }
    // A decoded byte sequence that is not UTF-8.
    assert!(matches!(
        assuan_decode("%ff", false),
        Err(AssuanError::DecodeError(_))
    ));
    // An escape is two hex digits: a sign is malformed.
    assert!(matches!(
        assuan_decode("%+a", false),
        Err(AssuanError::DecodeError(_))
    ));
    // A lone or trailing '%' is malformed, not a failure.
    assert!(matches!(assuan_decode("%", false), Err(AssuanError::DecodeError(_))));
    assert!(matches!(assuan_decode("%%_", true), Err(AssuanError::DecodeError(_))));
    assert_eq!(assuan_decode("%0a%41", true).unwrap(), "\nA");
    assert_eq!(
        AssuanError::DecodeError("x").message(),
        "assuan decode error: x"
    );
}

#[test]
fn repl_label_commands_cut_arguments() {
    let mut repl = make_repl();
    let mut cfg = Config::default();
    let mut fe = MockFrontend::new();
    handle(&mut repl, &mut cfg, &mut fe, "SETOK Yes%2C please");
    assert_eq!(cfg.labels.ok, Some("Yes, please".to_string()));
    handle(&mut repl, &mut cfg, &mut fe, "SETCANCEL");
    assert_eq!(cfg.labels.cancel, Some(String::new()));
    handle(&mut repl, &mut cfg, &mut fe, "  SETDESC  two words");
    assert_eq!(cfg.labels.description, Some("  SETDESC  two words"[7..].to_string()));
}

#[test]
fn repl_malformed_label_changes_nothing() {
    let mut repl = make_repl();
    let mut cfg = Config::default();
    let mut fe = MockFrontend::new();
    repl.get_writer().clear();
    assert!(matches!(
        handle_line(&mut repl, &mut cfg, &mut fe, "SETTITLE %zz"),
        Err(AssuanError::DecodeError(_))
    ));
    assert_eq!(repl.get_writer().as_slice(), b"");
    assert_eq!(cfg.labels.title, None);
}

#[test]
fn repl_confirm_uses_yes_no_defaults_and_clears_error() {
    let mut repl = make_repl();
    let mut cfg = Config::default();
    let mut fe = MockFrontend::new();
    handle(&mut repl, &mut cfg, &mut fe, "OPTION default-yes=_Yes");
    handle(&mut repl, &mut cfg, &mut fe, "OPTION default-no=N_o");
    handle(&mut repl, &mut cfg, &mut fe, "SETERROR bad");
    handle(&mut repl, &mut cfg, &mut fe, "CONFIRM");
    assert_eq!(repl.mode(), AssuanMode::Confirm);
    assert_eq!(fe.mode, InterfaceMode::Message);
    assert_eq!(cfg.labels.ok, Some("Yes".to_string()));
    assert_eq!(cfg.labels.cancel, Some("No".to_string()));
    repl.get_writer().clear();
    assert!(repl.handle_frontend_event(&mut cfg, None, Event::UserOk));
    assert_eq!(repl.get_writer().as_slice(), b"OK\n");
    assert_eq!(cfg.labels.err_message, None);
    assert!(!repl.handle_frontend_event(&mut cfg, None, Event::NoEvent));
}

#[test]
fn repl_message_with_title_enters_message_mode() {
    let mut repl = make_repl();
    let mut cfg = Config::default();
    let mut fe = MockFrontend::new();
    handle(&mut repl, &mut cfg, &mut fe, "SETERROR oops");
    assert!(repl.requires_frontend(&cfg, "message"));
    handle(&mut repl, &mut cfg, &mut fe, "MESSAGE");
    assert_eq!(repl.get_writer().as_slice(), b"");
    assert_eq!(repl.mode(), AssuanMode::Message);
    // The error message survives a message prompt.
    repl.handle_frontend_event(&mut cfg, None, Event::UserOk);
    assert_eq!(cfg.labels.err_message, Some(" oops".to_string()));
}

#[test]
fn repl_requires_frontend_only_for_prompts() {
    let repl = make_repl();
    let cfg = Config::default();
    assert!(repl.requires_frontend(&cfg, "GETPIN"));
    assert!(repl.requires_frontend(&cfg, " confirm --one-button"));
    assert!(!repl.requires_frontend(&cfg, "MESSAGE"));
    assert!(!repl.requires_frontend(&cfg, "SETTITLE x"));
    assert!(!repl.requires_frontend(&cfg, ""));
}

#[test]
fn repl_accepts_line_guards_undefined_inputs() {
    let repl = make_repl();
    assert!(repl.accepts_line("SETTITLE %20"));
    assert!(repl.accepts_line("SETTITLE %%%"));
    assert!(repl.accepts_line("OPTION default-ok=%%__"));
    assert!(repl.accepts_line("OPTION default-ok=%41%42"));
    // Multi-byte leading spaces put the cut inside a character.
    assert!(!repl.accepts_line("\u{3000}\u{3000}\u{3000}SETDESC x"));
    assert!(repl.accepts_line("BOGUS %%%%"));
}

#[test]
fn repl_getinfo_pid_reports_given_pid() {
    let mut repl = AssuanRepl::new(Vec::new(), 4321);
    let mut cfg = Config::default();
    let mut fe = MockFrontend::new();
    handle(&mut repl, &mut cfg, &mut fe, "GETINFO PID");
    assert_eq!(repl.get_writer().as_slice(), b"D 4321\nEND\nOK\n");
    handle(&mut repl, &mut cfg, &mut fe, "GETINFO other");
    assert_eq!(repl.get_writer().as_slice(), b"OK\n");
}
