use nowayprompt::command::{
    askpass_title, exit_status, final_event, parse_cli, poll_plan, print_help, select_entry, take_byte,
    validate_cli, write_askpass_output, write_cli_output, write_json_bytes, Entry, ParseResult,
    PollPlan,
};
use nowayprompt::frontend::Event;

fn args(list: &[&str]) -> Vec<String> {
    list.iter().map(|s| s.to_string()).collect()
}

#[test]
fn cli_rejects_prompt_without_secret_mode() {
    let request = match parse_cli(&args(&["--prompt", "PIN"])).unwrap() {
        ParseResult::Request(request) => request,
        ParseResult::Help => panic!("unexpected help"),
    };
    assert!(validate_cli(&request).is_err());
}

#[test]
fn cli_rejects_repeated_value_flag() {
    assert!(parse_cli(&args(&["--title", "one", "--title", "two"])).is_err());
}

#[test]
fn cli_rejects_unknown_and_argumentless_options() {
    assert!(parse_cli(&args(&["--unknown"])).is_err());
    assert!(parse_cli(&args(&["--title"])).is_err());
}

#[test]
fn cli_json_escapes_secret_without_copying_it() {
    let mut output = Vec::new();
    write_cli_output(&mut output, Event::UserOk, Some(b"a\\\"b"), true, true);
    assert_eq!(
        output,
        b"{\n    \"user-action\": \"ok\",\n    \"pin\": \"a\\\\\\\"b\"\n}\n"
    );
}

#[test]
fn cli_cancelled_secret_reports_no_pin() {
    let mut output = Vec::new();
    write_cli_output(&mut output, Event::UserAbort, None, true, false);
    assert_eq!(output, b"user-action: cancel\nno pin\n");
}

#[test]
fn cli_exit_statuses_match_contract() {
    assert_eq!(exit_status(Event::UserOk), 0);
    assert_eq!(exit_status(Event::UserAbort), 10);
    assert_eq!(exit_status(Event::UserNotOk), 20);
}

#[test]
fn askpass_emits_only_a_non_empty_accepted_secret() {
    let mut output = Vec::new();
    assert_eq!(
        write_askpass_output(&mut output, Event::UserOk, Some(b"fixture")),
        0
    );
    assert_eq!(output, b"fixture\n");

    output.clear();
    assert_eq!(
        write_askpass_output(&mut output, Event::UserAbort, Some(b"fixture")),
        1
    );
    assert!(output.is_empty());
    assert_eq!(
        write_askpass_output(&mut output, Event::UserOk, Some(b"")),
        1
    );
    assert!(output.is_empty());
}

#[test]
fn unknown_basename_is_rejected_before_frontend_initialization() {
    assert!(select_entry("unrecognized-nowayprompt").is_err());
}

// --- further cases ---

#[test]
fn cli_error_messages() {
    assert_eq!(
        parse_cli(&args(&["--title", "one", "--title", "two"])).unwrap_err(),
        "redundant '--title' flag"
    );
    assert_eq!(
        parse_cli(&args(&["--title"])).unwrap_err(),
        "flag '--title' needs an argument"
    );
    assert_eq!(
        parse_cli(&args(&["--get-pin", "--get-pin"])).unwrap_err(),
        "redundant '--get-pin' flag"
    );
    assert_eq!(
        parse_cli(&args(&["-x"])).unwrap_err(),
        "unknown flag: '-x'"
    );
    let request = match parse_cli(&args(&["--prompt", "PIN"])).unwrap() {
        ParseResult::Request(request) => request,
        ParseResult::Help => panic!("unexpected help"),
    };
    assert_eq!(validate_cli(&request).unwrap_err(), "--prompt requires --get-pin");
    let request = match parse_cli(&args(&[])).unwrap() {
        ParseResult::Request(request) => request,
        ParseResult::Help => panic!("unexpected help"),
    };
    assert_eq!(
        validate_cli(&request).unwrap_err(),
        "a message requires --title, --description, or --error"
    );
}

#[test]
fn cli_parses_full_request() {
    let parsed = parse_cli(&args(&[
        "--title",
        "T",
        "--get-pin",
        "--json",
        "--button-not-ok",
        "N",
        "--wayland-display",
        "wayland-9",
    ]))
    .unwrap();
    let request = match parsed {
        ParseResult::Request(request) => request,
        ParseResult::Help => panic!("unexpected help"),
    };
    assert_eq!(request.labels.title.as_deref(), Some("T"));
    assert_eq!(request.labels.not_ok.as_deref(), Some("N"));
    assert_eq!(request.wayland_display.as_deref(), Some("wayland-9"));
    assert!(request.get_pin);
    assert!(request.json);
    assert!(validate_cli(&request).is_ok());
    // Help wins even after other flags, but not after an error.
    assert!(matches!(
        parse_cli(&args(&["--json", "-h", "--bogus"])).unwrap(),
        ParseResult::Help
    ));
    assert!(parse_cli(&args(&["--bogus", "--help"])).is_err());
}

#[test]
fn cli_plain_and_json_outputs() {
    let mut out = Vec::new();
    write_cli_output(&mut out, Event::UserOk, Some(b"s3cret"), true, false);
    assert_eq!(out, b"user-action: ok\npin: s3cret\n");
    let mut out = Vec::new();
    write_cli_output(&mut out, Event::UserNotOk, None, false, true);
    assert_eq!(out, b"{\n    \"user-action\": \"not-ok\"\n}\n");
    let mut out = Vec::new();
    write_cli_output(&mut out, Event::UserAbort, None, true, true);
    assert_eq!(
        out,
        b"{\n    \"user-action\": \"cancel\",\n    \"pin\": null\n}\n"
    );
    let mut out = Vec::new();
    write_cli_output(&mut out, Event::NoEvent, Some(b"x"), true, true);
    assert!(out.is_empty());
    assert_eq!(exit_status(Event::NoEvent), 1);
}

#[test]
fn json_escapes_control_bytes() {
    let mut out = Vec::new();
    write_json_bytes(&mut out, b"\n\r\t\x01\x1fA\x7f");
    assert_eq!(out, b"\\n\\r\\t\\u0001\\u001fA\x7f".to_vec());
}

#[test]
fn help_text_lists_flags() {
    let mut out = Vec::new();
    print_help(&mut out);
    let text = String::from_utf8(out).unwrap();
    assert!(text.starts_with("Usage: nowayprompt [options..]\n"));
    assert!(text.ends_with("  --help, -h                   Show this help text\n"));
}

#[test]
fn entry_points_by_basename() {
    assert_eq!(select_entry("nowayprompt").unwrap(), Entry::Cli);
    assert_eq!(select_entry("pinentry-nowayprompt").unwrap(), Entry::Pinentry);
    assert_eq!(select_entry("nowayprompt-ssh-askpass").unwrap(), Entry::Askpass);
    assert_eq!(
        select_entry("other").unwrap_err(),
        "unknown executable basename: other"
    );
}

#[test]
fn askpass_titles() {
    assert_eq!(askpass_title(&[]), "SSH Password:");
    assert_eq!(askpass_title(&args(&["Enter", "passphrase:"])), "Enter passphrase:");
}

#[test]
fn pinentry_loop_decisions() {
    assert_eq!(poll_plan(true, true, true), PollPlan::Stop);
    assert_eq!(poll_plan(true, false, false), PollPlan::Stop);
    assert_eq!(
        poll_plan(true, true, false),
        PollPlan::Wait {
            stdin: false,
            frontend: true
        }
    );
    assert_eq!(
        poll_plan(false, false, true),
        PollPlan::Wait {
            stdin: true,
            frontend: false
        }
    );
    let mut input = Vec::new();
    assert_eq!(take_byte(&mut input, b'N'), None);
    assert_eq!(take_byte(&mut input, b'O'), None);
    assert_eq!(take_byte(&mut input, b'\n'), Some(b"NO".to_vec()));
    assert!(input.is_empty());
}

#[test]
fn only_a_real_event_ends_the_prompt() {
    assert_eq!(final_event(None), None);
    assert_eq!(final_event(Some(Event::NoEvent)), None);
    assert_eq!(final_event(Some(Event::UserOk)), Some(Event::UserOk));
    assert_eq!(final_event(Some(Event::UserNotOk)), Some(Event::UserNotOk));
}
