use nowayprompt::command::final_event;
use nowayprompt::config::Config;
use nowayprompt::frontend::{Event, Frontend, FrontendError, InterfaceMode};
use nowayprompt::protocol::assuan::{AssuanError, AssuanRepl};

/// Mock frontend that records mode transitions and can replay events.
struct RecordingFrontend {
    mode: InterfaceMode,
    next_event: Option<Event>,
    mode_log: Vec<InterfaceMode>,
}

impl RecordingFrontend {
    fn new() -> Self {
        Self {
            mode: InterfaceMode::NoPrompt,
            next_event: None,
            mode_log: Vec::new(),
        }
    }
}

impl Frontend for RecordingFrontend {
    fn init(&mut self, _cfg: &mut Config) -> Result<i32, FrontendError> {
        Ok(0)
    }

    fn deinit(&mut self) {}

    fn enter_mode(&mut self, mode: InterfaceMode) -> Result<(), FrontendError> {
        self.mode_log.push(mode);
        self.mode = mode;
        Ok(())
    }

    fn handle_event(&mut self) -> Result<Event, FrontendError> {
        Ok(self.next_event.take().unwrap_or(Event::NoEvent))
    }

    fn flush(&mut self) -> Result<Option<Event>, FrontendError> {
        Ok(self.next_event.take())
    }

    fn no_event(&mut self) -> Result<(), FrontendError> {
        Ok(())
    }
}

fn make_pair() -> (AssuanRepl, RecordingFrontend) {
    (
        AssuanRepl::new(Vec::new(), 4242),
        RecordingFrontend::new(),
    )
}


/// Hands a line to the protocol and the mode it asks for to the frontend,
/// as the pinentry loop does.
fn handle_line(
    repl: &mut AssuanRepl,
    cfg: &mut Config,
    fe: &mut RecordingFrontend,
    line: &str,
) -> Result<(), AssuanError> {
    if let Some(mode) = repl.handle_line(cfg, line)? {
        fe.enter_mode(mode).unwrap();
    }
    Ok(())
}

/// Ends the prompt on a final event as the pinentry loop does: the
/// frontend leaves its prompt and the protocol answers the event.
fn handle_assuan_event(
    repl: &mut AssuanRepl,
    cfg: &mut Config,
    fe: &mut RecordingFrontend,
    secret: Option<&[u8]>,
    event: Event,
) -> Result<bool, FrontendError> {
    match final_event(Some(event)) {
        Some(event) => {
            fe.enter_mode(InterfaceMode::NoPrompt)?;
            Ok(repl.handle_frontend_event(cfg, secret, event))
        }
        None => Ok(false),
    }
}

#[test]
fn greeting_on_new() {
    let (mut repl, _) = make_pair();
    assert_eq!(
        repl.get_writer().as_slice(),
        b"OK wayprompt is pleased to meet you\n"
    );
}

#[test]
fn settitle_setprompt_setdesc_then_getpin_enters_getpin_mode() {
    let (mut repl, mut frontend) = make_pair();
    let mut cfg = Config::default();
    handle_line(&mut repl, &mut cfg, &mut frontend, "SETTITLE T").unwrap();
    handle_line(&mut repl, &mut cfg, &mut frontend, "SETPROMPT P").unwrap();
    handle_line(&mut repl, &mut cfg, &mut frontend, "SETDESC D").unwrap();
    handle_line(&mut repl, &mut cfg, &mut frontend, "GETPIN").unwrap();
    let out = repl.get_writer().as_slice();
    assert_eq!(
        &out[b"OK wayprompt is pleased to meet you\n".len()..],
        b"OK\nOK\nOK\n"
    );
    assert_eq!(frontend.mode, InterfaceMode::GetPin);
}

#[test]
fn getpin_with_enter_returns_pin() {
    let (mut repl, mut frontend) = make_pair();
    let mut cfg = Config::default();
    handle_line(&mut repl, &mut cfg, &mut frontend, "SETPROMPT P").unwrap();
    handle_line(&mut repl, &mut cfg, &mut frontend, "GETPIN").unwrap();
    let secret: &[u8] = b"hunter2";
    repl.handle_frontend_event(&mut cfg, Some(secret), Event::UserOk);
    let out = repl.get_writer().as_slice();
    assert!(out.ends_with(b"D hunter2\nEND\nOK\n"));
}

#[test]
fn getpin_with_empty_pin_returns_ok() {
    let (mut repl, mut frontend) = make_pair();
    let mut cfg = Config::default();
    handle_line(&mut repl, &mut cfg, &mut frontend, "GETPIN").unwrap();
    repl.handle_frontend_event(&mut cfg, None, Event::UserOk);
    let out = repl.get_writer().as_slice();
    assert!(out.ends_with(b"OK\n"));
}

#[test]
fn getpin_escape_returns_cancelled() {
    let (mut repl, mut frontend) = make_pair();
    let mut cfg = Config::default();
    handle_line(&mut repl, &mut cfg, &mut frontend, "GETPIN").unwrap();
    repl.handle_frontend_event(&mut cfg, None, Event::UserAbort);
    let out = repl.get_writer().as_slice();
    assert!(out.ends_with(b"ERR 83886179 Operation cancelled\n"));
}

#[test]
fn confirm_ctrl_c_with_notok_returns_not_confirmed() {
    let (mut repl, mut frontend) = make_pair();
    let mut cfg = Config::default();
    handle_line(&mut repl, &mut cfg, &mut frontend, "SETNOTOK No").unwrap();
    handle_line(&mut repl, &mut cfg, &mut frontend, "CONFIRM").unwrap();
    repl.handle_frontend_event(&mut cfg, None, Event::UserNotOk);
    let out = repl.get_writer().as_slice();
    assert!(out.ends_with(b"ERR 83886194 not confirmed\n"));
}

#[test]
fn bye_emits_ok_and_stops() {
    let (mut repl, mut frontend) = make_pair();
    let mut cfg = Config::default();
    handle_line(&mut repl, &mut cfg, &mut frontend, "BYE").unwrap();
    let out = repl.get_writer().as_slice();
    assert!(out.ends_with(b"OK\n"));
    assert!(!repl.is_running());
}

#[test]
fn setkeyinfo_silently_accepted() {
    let (mut repl, mut frontend) = make_pair();
    let mut cfg = Config::default();
    handle_line(&mut repl, &mut cfg, &mut frontend, "SETKEYINFO X").unwrap();
    let out = repl.get_writer().as_slice();
    assert_eq!(
        &out[b"OK wayprompt is pleased to meet you\n".len()..],
        b"OK\n"
    );
}

#[test]
fn settimeout_not_implemented() {
    let (mut repl, mut frontend) = make_pair();
    let mut cfg = Config::default();
    handle_line(&mut repl, &mut cfg, &mut frontend, "SETTIMEOUT 30").unwrap();
    let out = repl.get_writer().as_slice();
    assert!(out.ends_with(b"ERR 536870981 Not implemented\n"));
}

#[test]
fn unknown_command_err() {
    let (mut repl, mut frontend) = make_pair();
    let mut cfg = Config::default();
    handle_line(&mut repl, &mut cfg, &mut frontend, "BOGUS").unwrap();
    let out = repl.get_writer().as_slice();
    assert!(out.ends_with(b"ERR 536871187 Unknown IPC command\n"));
}

#[test]
fn getinfo_flavor_version_pid() {
    let (mut repl, mut frontend) = make_pair();
    let mut cfg = Config::default();
    handle_line(&mut repl, &mut cfg, &mut frontend, "GETINFO flavor").unwrap();
    let out = repl.get_writer().as_slice();
    assert!(out.ends_with(b"D wayprompt\nEND\nOK\n"));

    repl.get_writer().clear();
    handle_line(&mut repl, &mut cfg, &mut frontend, "GETINFO version").unwrap();
    let out = repl.get_writer().as_slice();
    assert!(out.ends_with(b"D 0.0.0\nEND\nOK\n"));

    repl.get_writer().clear();
    handle_line(&mut repl, &mut cfg, &mut frontend, "GETINFO pid").unwrap();
    let out = repl.get_writer().as_slice();
    assert!(out.ends_with(b"\nEND\nOK\n"));
    assert!(out.starts_with(b"D "));
}

#[test]
fn reset_clears_labels_and_emits_ok() {
    let (mut repl, mut frontend) = make_pair();
    let mut cfg = Config::default();
    handle_line(&mut repl, &mut cfg, &mut frontend, "SETTITLE T").unwrap();
    assert_eq!(cfg.labels.title, Some(" T".into()));

    repl.get_writer().clear();
    handle_line(&mut repl, &mut cfg, &mut frontend, "RESET").unwrap();
    let out = repl.get_writer().as_slice();
    assert_eq!(out, b"OK\n");
    assert_eq!(cfg.labels.title, None);
}

#[test]
fn nop_emits_ok() {
    let (mut repl, mut frontend) = make_pair();
    let mut cfg = Config::default();
    handle_line(&mut repl, &mut cfg, &mut frontend, "NOP").unwrap();
    let out = repl.get_writer().as_slice();
    assert!(out.ends_with(b"OK\n"));
}

#[test]
fn help_emits_command_list() {
    let (mut repl, mut frontend) = make_pair();
    let mut cfg = Config::default();
    handle_line(&mut repl, &mut cfg, &mut frontend, "HELP").unwrap();
    let out = repl.get_writer().as_slice();
    let expected = b"# NOP\n# SETTITLE\n# SETPROMPT\n# SETDESC\n# SETERROR\n# GETPIN\n# BYE\n# OPTION\n# RESET\nOK\n";
    assert!(out.ends_with(expected));
}

#[test]
fn message_with_no_labels_is_noop() {
    let (mut repl, mut frontend) = make_pair();
    let mut cfg = Config::default();
    handle_line(&mut repl, &mut cfg, &mut frontend, "MESSAGE").unwrap();
    let out = repl.get_writer().as_slice();
    assert!(out.ends_with(b"OK\n"));
    assert_eq!(frontend.mode, InterfaceMode::NoPrompt);
}

#[test]
fn option_default_ok_strips_hotkey() {
    let (mut repl, mut frontend) = make_pair();
    let mut cfg = Config::default();
    handle_line(&mut repl, &mut cfg, &mut frontend, "OPTION default-ok=_OK")
        .unwrap();
    let out = repl.get_writer().as_slice();
    assert!(out.ends_with(b"OK\n"));
}

#[test]
fn option_ttyname_stores_in_config() {
    let (mut repl, mut frontend) = make_pair();
    let mut cfg = Config::default();
    handle_line(&mut repl, &mut cfg, &mut frontend, "OPTION ttyname=/dev/tty1")
        .unwrap();
    assert_eq!(cfg.tty_name, Some("/dev/tty1".into()));
}

#[test]
fn prompt_round_trip_leaves_frontend_mode() {
    let (mut repl, mut frontend) = make_pair();
    let mut cfg = Config::default();
    handle_line(&mut repl, &mut cfg, &mut frontend, "GETPIN").unwrap();
    let secret: &[u8] = b"1234";
    let reset = handle_assuan_event(&mut repl, &mut cfg, &mut frontend, Some(secret), Event::UserOk)
        .unwrap();
    assert!(reset);
    assert_eq!(
        frontend.mode_log,
        vec![InterfaceMode::GetPin, InterfaceMode::NoPrompt]
    );
    assert!(repl.get_writer().ends_with(b"D 1234\nEND\nOK\n"));
    assert!(repl.mode_is_none());
    let reset = handle_assuan_event(&mut repl, &mut cfg, &mut frontend, None, Event::NoEvent)
        .unwrap();
    assert!(!reset);
    assert_eq!(frontend.mode_log.len(), 2);
}

#[test]
fn frontend_gets_exactly_the_requested_modes() {
    let (mut repl, mut frontend) = make_pair();
    let mut cfg = Config::default();
    for line in [
        "MESSAGE",
        "SETTITLE T",
        "OPTION default-ok=_Submit",
        "SETTIMEOUT 30",
        "BOGUS",
        "nop",
    ] {
        handle_line(&mut repl, &mut cfg, &mut frontend, line).unwrap();
    }
    assert!(frontend.mode_log.is_empty());
    assert!(matches!(repl.handle_line(&mut cfg, "getpin"), Ok(Some(InterfaceMode::GetPin))));
    // During the prompt every line is dropped and asks for nothing.
    assert!(matches!(repl.handle_line(&mut cfg, "CONFIRM"), Ok(None)));
    assert!(matches!(repl.handle_line(&mut cfg, "BYE"), Ok(None)));
    assert!(repl.is_running());
}
