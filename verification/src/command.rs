//! The command-line entry points' rules: which entry point a basename
//! selects, the prompt tool's argument parsing and validation, its exit
//! statuses and output formats, the askpass reply, and the decisions of
//! the pinentry and prompt loops.
use vstd::prelude::*;
use vstd::string::StringSliceAdditionalSpecFns;
use vstd::utf8::*;

use crate::config::{opt_view, Config, ConfigView, Labels, LabelsView};
use crate::frontend::Event;
use crate::protocol::assuan::{opt_bytes, spec_event, AssuanRepl};
use crate::text::{bytes_eq, concat3, hex_digit_lower, push_bytes, push_str, to_owned_string};

verus! {

broadcast use vstd::utf8::group_utf8_lib;

/// Exit status of an accepted prompt.
pub const EXIT_OK: u8 = 0;

/// Exit status of a failed or refused prompt.
pub const EXIT_ERROR: u8 = 1;

/// Exit status of a cancelled prompt.
pub const EXIT_CANCEL: u8 = 10;

/// Exit status of a prompt answered "not OK".
pub const EXIT_NOT_OK: u8 = 20;

/// Whether two strings hold the same characters.
pub fn str_eq(a: &str, b: &str) -> (r: bool)
    ensures
        r == (a@ == b@),
{
    let r = bytes_eq(a.as_bytes(), b.as_bytes());
    proof {
        encode_utf8_decode_utf8(a@);
        encode_utf8_decode_utf8(b@);
    }
    r
}

/// The entry point an executable basename selects.
#[derive(Debug, Clone, Copy, PartialEq, Eq, Structural)]
pub enum Entry {
    /// `nowayprompt`: the prompt tool.
    Cli,
    /// `pinentry-nowayprompt`: the Assuan pinentry.
    Pinentry,
    /// `nowayprompt-ssh-askpass`: the askpass provider.
    Askpass,
}

/// Selects the entry point by the executable's basename.
pub fn select_entry(basename: &str) -> (r: Result<Entry, String>)
    ensures
        basename@ == "nowayprompt"@ ==> r matches Ok(Entry::Cli),
        basename@ == "pinentry-nowayprompt"@ ==> r matches Ok(Entry::Pinentry),
        basename@ == "nowayprompt-ssh-askpass"@ ==> r matches Ok(Entry::Askpass),
        basename@ != "nowayprompt"@ && basename@ != "pinentry-nowayprompt"@ && basename@
            != "nowayprompt-ssh-askpass"@ ==> (r matches Err(m) && m@
            == "unknown executable basename: "@ + basename@),
{
    proof {
        reveal_strlit("nowayprompt");
        reveal_strlit("pinentry-nowayprompt");
        reveal_strlit("nowayprompt-ssh-askpass");
        assert("nowayprompt"@.len() == 11);
        assert("pinentry-nowayprompt"@.len() == 20);
        assert("nowayprompt-ssh-askpass"@.len() == 23);
    }
    if str_eq(basename, "nowayprompt") {
        Ok(Entry::Cli)
    } else if str_eq(basename, "pinentry-nowayprompt") {
        Ok(Entry::Pinentry)
    } else if str_eq(basename, "nowayprompt-ssh-askpass") {
        Ok(Entry::Askpass)
    } else {
        let mut m = String::from_str("unknown executable basename: ");
        m.append(basename);
        Err(m)
    }
}

/// A parsed prompt-tool request.
#[derive(Debug)]
pub struct CliRequest {
    pub labels: Labels,
    pub wayland_display: Option<String>,
    pub get_pin: bool,
    pub json: bool,
}

/// A request with its strings as character sequences.
pub struct CliView {
    pub labels: LabelsView,
    pub wayland_display: Option<Seq<char>>,
    pub get_pin: bool,
    pub json: bool,
}

impl View for CliRequest {
    type V = CliView;

    open spec fn view(&self) -> CliView {
        CliView {
            labels: self.labels@,
            wayland_display: opt_view(self.wayland_display),
            get_pin: self.get_pin,
            json: self.json,
        }
    }
}

/// The request before any flag.
pub open spec fn empty_request() -> CliView {
    CliView {
        labels: crate::config::empty_labels(),
        wayland_display: None,
        get_pin: false,
        json: false,
    }
}

impl Default for CliRequest {
    fn default() -> (r: CliRequest)
        ensures
            r@ == empty_request(),
    {
        CliRequest { labels: Labels::default(), wayland_display: None, get_pin: false, json: false }
    }
}

/// The outcome of parsing the arguments.
#[derive(Debug)]
pub enum ParseResult {
    /// `--help` or `-h` was given.
    Help,
    /// A request to run.
    Request(CliRequest),
}

/// A flag that takes a value.
#[derive(Debug, Clone, Copy, PartialEq, Eq, Structural)]
pub enum ValueFlag {
    Title,
    Description,
    Prompt,
    Error,
    ButtonOk,
    ButtonNotOk,
    ButtonCancel,
    WaylandDisplay,
}

/// The flag that takes a value named `f`, if any.
pub open spec fn value_flag(f: Seq<char>) -> Option<ValueFlag> {
    if f == "--title"@ {
        Some(ValueFlag::Title)
    } else if f == "--description"@ {
        Some(ValueFlag::Description)
    } else if f == "--prompt"@ {
        Some(ValueFlag::Prompt)
    } else if f == "--error"@ {
        Some(ValueFlag::Error)
    } else if f == "--button-ok"@ {
        Some(ValueFlag::ButtonOk)
    } else if f == "--button-not-ok"@ {
        Some(ValueFlag::ButtonNotOk)
    } else if f == "--button-cancel"@ {
        Some(ValueFlag::ButtonCancel)
    } else if f == "--wayland-display"@ {
        Some(ValueFlag::WaylandDisplay)
    } else {
        None
    }
}

/// The name of a value flag.
pub open spec fn flag_name(v: ValueFlag) -> Seq<char> {
    match v {
        ValueFlag::Title => "--title"@,
        ValueFlag::Description => "--description"@,
        ValueFlag::Prompt => "--prompt"@,
        ValueFlag::Error => "--error"@,
        ValueFlag::ButtonOk => "--button-ok"@,
        ValueFlag::ButtonNotOk => "--button-not-ok"@,
        ValueFlag::ButtonCancel => "--button-cancel"@,
        ValueFlag::WaylandDisplay => "--wayland-display"@,
    }
}

/// The field a value flag sets.
pub open spec fn field_of(r: CliView, v: ValueFlag) -> Option<Seq<char>> {
    match v {
        ValueFlag::Title => r.labels.title,
        ValueFlag::Description => r.labels.description,
        ValueFlag::Prompt => r.labels.prompt,
        ValueFlag::Error => r.labels.err_message,
        ValueFlag::ButtonOk => r.labels.ok,
        ValueFlag::ButtonNotOk => r.labels.not_ok,
        ValueFlag::ButtonCancel => r.labels.cancel,
        ValueFlag::WaylandDisplay => r.wayland_display,
    }
}

/// `r` with the field of `v` set to `s`.
pub open spec fn set_field(r: CliView, v: ValueFlag, s: Seq<char>) -> CliView {
    match v {
        ValueFlag::Title => CliView { labels: LabelsView { title: Some(s), ..r.labels }, ..r },
        ValueFlag::Description => CliView {
            labels: LabelsView { description: Some(s), ..r.labels },
            ..r
        },
        ValueFlag::Prompt => CliView { labels: LabelsView { prompt: Some(s), ..r.labels }, ..r },
        ValueFlag::Error => CliView { labels: LabelsView { err_message: Some(s), ..r.labels }, ..r },
        ValueFlag::ButtonOk => CliView { labels: LabelsView { ok: Some(s), ..r.labels }, ..r },
        ValueFlag::ButtonNotOk => CliView { labels: LabelsView { not_ok: Some(s), ..r.labels }, ..r },
        ValueFlag::ButtonCancel => CliView { labels: LabelsView { cancel: Some(s), ..r.labels }, ..r },
        ValueFlag::WaylandDisplay => CliView { wayland_display: Some(s), ..r },
    }
}

/// Parsing the arguments from position `i` on into request `r`: the
/// request (`None` for help) or the error message. A value flag takes the
/// next argument and may be given once; `--get-pin` and `--json` may be
/// given once; `--help` and `-h` stop with help; anything else is an
/// unknown flag.
pub open spec fn spec_parse_cli(args: Seq<Seq<char>>, i: int, r: CliView) -> Result<
    Option<CliView>,
    Seq<char>,
>
    decreases args.len() - i,
{
    if i < 0 || i >= args.len() {
        Ok(Some(r))
    } else {
        let f = args[i];
        match value_flag(f) {
            Some(v) => if field_of(r, v) is Some {
                Err("redundant '"@ + flag_name(v) + "' flag"@)
            } else if i + 1 >= args.len() {
                Err("flag '"@ + flag_name(v) + "' needs an argument"@)
            } else {
                spec_parse_cli(args, i + 2, set_field(r, v, args[i + 1]))
            },
            None => if f == "--get-pin"@ && !r.get_pin {
                spec_parse_cli(args, i + 1, CliView { get_pin: true, ..r })
            } else if f == "--json"@ && !r.json {
                spec_parse_cli(args, i + 1, CliView { json: true, ..r })
            } else if f == "--help"@ || f == "-h"@ {
                Ok(None)
            } else if f == "--get-pin"@ || f == "--json"@ {
                Err("redundant '"@ + f + "' flag"@)
            } else {
                Err("unknown flag: '"@ + f + "'"@)
            },
        }
    }
}

/// The characters of each argument.
pub open spec fn args_view(args: Seq<String>) -> Seq<Seq<char>> {
    Seq::new(args.len(), |i: int| args[i]@)
}

fn value_flag_of(f: &str) -> (r: Option<ValueFlag>)
    ensures
        r == value_flag(f@),
{
    if str_eq(f, "--title") {
        Some(ValueFlag::Title)
    } else if str_eq(f, "--description") {
        Some(ValueFlag::Description)
    } else if str_eq(f, "--prompt") {
        Some(ValueFlag::Prompt)
    } else if str_eq(f, "--error") {
        Some(ValueFlag::Error)
    } else if str_eq(f, "--button-ok") {
        Some(ValueFlag::ButtonOk)
    } else if str_eq(f, "--button-not-ok") {
        Some(ValueFlag::ButtonNotOk)
    } else if str_eq(f, "--button-cancel") {
        Some(ValueFlag::ButtonCancel)
    } else if str_eq(f, "--wayland-display") {
        Some(ValueFlag::WaylandDisplay)
    } else {
        None
    }
}

fn flag_name_str(v: ValueFlag) -> (r: &'static str)
    ensures
        r@ == flag_name(v),
{
    match v {
        ValueFlag::Title => "--title",
        ValueFlag::Description => "--description",
        ValueFlag::Prompt => "--prompt",
        ValueFlag::Error => "--error",
        ValueFlag::ButtonOk => "--button-ok",
        ValueFlag::ButtonNotOk => "--button-not-ok",
        ValueFlag::ButtonCancel => "--button-cancel",
        ValueFlag::WaylandDisplay => "--wayland-display",
    }
}

impl CliRequest {
    fn field_is_set(&self, v: ValueFlag) -> (r: bool)
        ensures
            r == (field_of(self@, v) is Some),
    {
        match v {
            ValueFlag::Title => self.labels.title.is_some(),
            ValueFlag::Description => self.labels.description.is_some(),
            ValueFlag::Prompt => self.labels.prompt.is_some(),
            ValueFlag::Error => self.labels.err_message.is_some(),
            ValueFlag::ButtonOk => self.labels.ok.is_some(),
            ValueFlag::ButtonNotOk => self.labels.not_ok.is_some(),
            ValueFlag::ButtonCancel => self.labels.cancel.is_some(),
            ValueFlag::WaylandDisplay => self.wayland_display.is_some(),
        }
    }

    fn set(&mut self, v: ValueFlag, s: String)
        ensures
            final(self)@ == set_field(old(self)@, v, s@),
    {
        match v {
            ValueFlag::Title => self.labels.title = Some(s),
            ValueFlag::Description => self.labels.description = Some(s),
            ValueFlag::Prompt => self.labels.prompt = Some(s),
            ValueFlag::Error => self.labels.err_message = Some(s),
            ValueFlag::ButtonOk => self.labels.ok = Some(s),
            ValueFlag::ButtonNotOk => self.labels.not_ok = Some(s),
            ValueFlag::ButtonCancel => self.labels.cancel = Some(s),
            ValueFlag::WaylandDisplay => self.wayland_display = Some(s),
        }
    }
}

/// Parses the prompt tool's arguments ([`spec_parse_cli`]).
pub fn parse_cli(args: &[String]) -> (r: Result<ParseResult, String>)
    ensures
        match spec_parse_cli(args_view(args@), 0, empty_request()) {
            Ok(None) => r matches Ok(ParseResult::Help),
            Ok(Some(v)) => r matches Ok(ParseResult::Request(q)) && q@ == v,
            Err(m) => r matches Err(e) && e@ == m,
        },
{
    let ghost av = args_view(args@);
    let mut request = CliRequest::default();
    let mut index: usize = 0;
    while index < args.len()
        invariant
            index <= args@.len(),
            av == args_view(args@),
            spec_parse_cli(av, 0, empty_request()) == spec_parse_cli(av, index as int, request@),
        decreases args@.len() - index,
    {
        let flag = args[index].as_str();
        assert(flag@ == av[index as int]);
        match value_flag_of(flag) {
            Some(v) => {
                if request.field_is_set(v) {
                    return Err(concat3("redundant '", flag_name_str(v), "' flag"));
                }
                if index + 1 >= args.len() {
                    return Err(concat3("flag '", flag_name_str(v), "' needs an argument"));
                }
                let value = to_owned_string(args[index + 1].as_str());
                assert(value@ == av[index + 1]);
                request.set(v, value);
                index = index + 2;
            },
            None => {
                if str_eq(flag, "--get-pin") && !request.get_pin {
                    request.get_pin = true;
                } else if str_eq(flag, "--json") && !request.json {
                    request.json = true;
                } else if str_eq(flag, "--help") || str_eq(flag, "-h") {
                    return Ok(ParseResult::Help);
                } else if str_eq(flag, "--get-pin") || str_eq(flag, "--json") {
                    return Err(concat3("redundant '", flag, "' flag"));
                } else {
                    return Err(concat3("unknown flag: '", flag, "'"));
                }
                index = index + 1;
            },
        }
    }
    Ok(ParseResult::Request(request))
}

/// Checks a request: a prompt text needs the PIN mode, and a message needs
/// a title, description or error to show.
pub fn validate_cli(request: &CliRequest) -> (r: Result<(), String>)
    ensures
        !request@.get_pin && request@.labels.prompt is Some ==> (r matches Err(m) && m@
            == "--prompt requires --get-pin"@),
        !request@.get_pin && request@.labels.prompt is None && request@.labels.title is None
            && request@.labels.description is None && request@.labels.err_message is None ==> (
        r matches Err(m) && m@ == "a message requires --title, --description, or --error"@),
        request@.get_pin || (request@.labels.prompt is None && (request@.labels.title is Some
            || request@.labels.description is Some || request@.labels.err_message is Some)) ==> r
            is Ok,
{
    if !request.get_pin && request.labels.prompt.is_some() {
        return Err(String::from_str("--prompt requires --get-pin"));
    }
    if !request.get_pin && request.labels.title.is_none() && request.labels.description.is_none()
        && request.labels.err_message.is_none() {
        return Err(String::from_str("a message requires --title, --description, or --error"));
    }
    Ok(())
}

/// The exit status of a finished prompt.
pub open spec fn spec_exit_status(event: Event) -> u8 {
    match event {
        Event::UserOk => EXIT_OK,
        Event::UserAbort => EXIT_CANCEL,
        Event::UserNotOk => EXIT_NOT_OK,
        Event::NoEvent => EXIT_ERROR,
    }
}

/// The exit status of a finished prompt ([`spec_exit_status`]).
pub fn exit_status(event: Event) -> (s: u8)
    ensures
        s == spec_exit_status(event),
{
    match event {
        Event::UserOk => EXIT_OK,
        Event::UserAbort => EXIT_CANCEL,
        Event::UserNotOk => EXIT_NOT_OK,
        Event::NoEvent => EXIT_ERROR,
    }
}

/// The JSON escape of one byte: quote, backslash, newline, carriage return
/// and tab get their short escapes, other control bytes a `\u00XX` escape,
/// everything else stands for itself.
pub open spec fn json_escape(b: u8) -> Seq<u8> {
    if b == 0x22 {
        "\\\"".spec_bytes()
    } else if b == 0x5c {
        "\\\\".spec_bytes()
    } else if b == 0x0a {
        "\\n".spec_bytes()
    } else if b == 0x0d {
        "\\r".spec_bytes()
    } else if b == 0x09 {
        "\\t".spec_bytes()
    } else if b <= 0x1f {
        "\\u00".spec_bytes() + seq![hex_digit_lower((b / 16) as nat), hex_digit_lower((b % 16) as nat)]
    } else {
        seq![b]
    }
}

/// The JSON escape of a byte string.
pub open spec fn json_escaped(s: Seq<u8>) -> Seq<u8>
    decreases s.len(),
{
    if s.len() == 0 {
        Seq::empty()
    } else {
        json_escaped(s.drop_last()) + json_escape(s.last())
    }
}

/// Writes `bytes` escaped for a JSON string ([`json_escaped`]).
pub fn write_json_bytes(writer: &mut Vec<u8>, bytes: &[u8])
    ensures
        final(writer)@ == old(writer)@ + json_escaped(bytes@),
{
    let mut i: usize = 0;
    while i < bytes.len()
        invariant
            i <= bytes@.len(),
            writer@ == old(writer)@ + json_escaped(bytes@.take(i as int)),
        decreases bytes@.len() - i,
    {
        let byte = bytes[i];
        let ghost before = writer@;
        if byte == 0x22 {
            push_str(writer, "\\\"");
        } else if byte == 0x5c {
            push_str(writer, "\\\\");
        } else if byte == 0x0a {
            push_str(writer, "\\n");
        } else if byte == 0x0d {
            push_str(writer, "\\r");
        } else if byte == 0x09 {
            push_str(writer, "\\t");
        } else if byte <= 0x1f {
            push_str(writer, "\\u00");
            writer.push(hex_digit(byte / 16));
            writer.push(hex_digit(byte % 16));
        } else {
            writer.push(byte);
        }
        proof {
            assert(bytes@.take(i + 1).drop_last() =~= bytes@.take(i as int));
            assert(writer@ =~= before + json_escape(byte));
        }
        i = i + 1;
    }
    proof {
        assert(bytes@.take(i as int) =~= bytes@);
    }
}

fn hex_digit(d: u8) -> (r: u8)
    requires
        d < 16,
    ensures
        r == hex_digit_lower(d as nat),
{
    if d < 10 {
        0x30 + d
    } else {
        0x61 + d - 10
    }
}

/// The name of a user action in the output.
pub open spec fn action_name(event: Event) -> Seq<u8> {
    match event {
        Event::UserOk => "ok".spec_bytes(),
        Event::UserAbort => "cancel".spec_bytes(),
        Event::UserNotOk => "not-ok".spec_bytes(),
        Event::NoEvent => Seq::empty(),
    }
}

/// The prompt tool's output: nothing without an event; else, as JSON or
/// plain text, the user action, then the PIN when one is given, or its
/// absence in PIN mode.
pub open spec fn cli_output(event: Event, pin: Option<Seq<u8>>, get_pin: bool, json: bool) -> Seq<u8> {
    if event == Event::NoEvent {
        Seq::empty()
    } else if json {
        json_output(action_name(event), pin, get_pin)
    } else {
        plain_output(action_name(event), pin, get_pin)
    }
}

/// The JSON form of the prompt tool's output for `action`.
pub open spec fn json_output(action: Seq<u8>, pin: Option<Seq<u8>>, get_pin: bool) -> Seq<u8> {
    "{\n    \"user-action\": \"".spec_bytes() + action + "\"".spec_bytes() + match pin {
        Some(p) => ",\n    \"pin\": \"".spec_bytes() + json_escaped(p) + "\"\n".spec_bytes(),
        None => if get_pin {
            ",\n    \"pin\": null\n".spec_bytes()
        } else {
            "\n".spec_bytes()
        },
    } + "}\n".spec_bytes()
}

/// The plain form of the prompt tool's output for `action`.
pub open spec fn plain_output(action: Seq<u8>, pin: Option<Seq<u8>>, get_pin: bool) -> Seq<u8> {
    "user-action: ".spec_bytes() + action + "\n".spec_bytes() + match pin {
        Some(p) => "pin: ".spec_bytes() + p + "\n".spec_bytes(),
        None => if get_pin {
            "no pin\n".spec_bytes()
        } else {
            Seq::empty()
        },
    }
}

fn action_str(event: Event) -> (r: &'static str)
    requires
        event != Event::NoEvent,
    ensures
        r.spec_bytes() == action_name(event),
{
    match event {
        Event::UserOk => "ok",
        Event::UserAbort => "cancel",
        Event::UserNotOk => "not-ok",
        Event::NoEvent => "",
    }
}

fn write_json_output(writer: &mut Vec<u8>, action: &str, pin: Option<&[u8]>, get_pin: bool)
    ensures
        final(writer)@ == old(writer)@ + json_output(action.spec_bytes(), opt_bytes(pin), get_pin),
{
    push_str(writer, "{\n    \"user-action\": \"");
    push_str(writer, action);
    push_str(writer, "\"");
    match pin {
        Some(p) => {
            push_str(writer, ",\n    \"pin\": \"");
            write_json_bytes(writer, p);
            push_str(writer, "\"\n");
        },
        None => {
            if get_pin {
                push_str(writer, ",\n    \"pin\": null\n");
            } else {
                push_str(writer, "\n");
            }
        },
    }
    push_str(writer, "}\n");
    assert(final(writer)@ =~= old(writer)@ + json_output(action.spec_bytes(), opt_bytes(pin), get_pin));
}

fn write_plain_output(writer: &mut Vec<u8>, action: &str, pin: Option<&[u8]>, get_pin: bool)
    ensures
        final(writer)@ == old(writer)@ + plain_output(action.spec_bytes(), opt_bytes(pin), get_pin),
{
    push_str(writer, "user-action: ");
    push_str(writer, action);
    push_str(writer, "\n");
    match pin {
        Some(p) => {
            push_str(writer, "pin: ");
            push_bytes(writer, p);
            push_str(writer, "\n");
        },
        None => {
            if get_pin {
                push_str(writer, "no pin\n");
            }
        },
    }
    assert(final(writer)@ =~= old(writer)@ + plain_output(action.spec_bytes(), opt_bytes(pin), get_pin));
}

/// Writes the prompt tool's output ([`cli_output`]).
pub fn write_cli_output(writer: &mut Vec<u8>, event: Event, pin: Option<&[u8]>, get_pin: bool, json: bool)
    ensures
        final(writer)@ == old(writer)@ + cli_output(event, opt_bytes(pin), get_pin, json),
{
    if event == Event::NoEvent {
        assert(old(writer)@ + Seq::<u8>::empty() =~= old(writer)@);
        return ;
    }
    let action = action_str(event);
    if json {
        write_json_output(writer, action, pin, get_pin);
    } else {
        write_plain_output(writer, action, pin, get_pin);
    }
}

/// The usage text of the prompt tool.
pub open spec fn help_text() -> Seq<u8> {
    "Usage: nowayprompt [options..]\n  --title           <string>   Set the window title\n  --description     <string>   Set the description text\n  --prompt          <string>   Set the password prompt text\n  --error           <string>   Set the error message\n  --button-ok       <string>   Set the OK button text\n  --button-not-ok   <string>   Set the not-OK button text\n  --button-cancel   <string>   Set the cancel button text\n  --wayland-display <string>   Select a Wayland display\n  --get-pin                    Query for a password\n  --json                       Format output as JSON\n  --help, -h                   Show this help text\n".spec_bytes()
}

/// Writes the usage text of the prompt tool.
pub fn print_help(writer: &mut Vec<u8>)
    ensures
        final(writer)@ == old(writer)@ + help_text(),
{
    push_str(
        writer,
        "Usage: nowayprompt [options..]\n  --title           <string>   Set the window title\n  --description     <string>   Set the description text\n  --prompt          <string>   Set the password prompt text\n  --error           <string>   Set the error message\n  --button-ok       <string>   Set the OK button text\n  --button-not-ok   <string>   Set the not-OK button text\n  --button-cancel   <string>   Set the cancel button text\n  --wayland-display <string>   Select a Wayland display\n  --get-pin                    Query for a password\n  --json                       Format output as JSON\n  --help, -h                   Show this help text\n",
    );
}

/// Writes the askpass reply: a non-empty PIN accepted by the user, then a
/// newline, with status 0; nothing with status 1 otherwise.
pub fn write_askpass_output(writer: &mut Vec<u8>, event: Event, pin: Option<&[u8]>) -> (s: u8)
    ensures
        (pin matches Some(p) && p@.len() > 0 && event == Event::UserOk) ==> s == EXIT_OK
            && final(writer)@ == old(writer)@ + opt_bytes(pin)->0 + "\n".spec_bytes(),
        !(pin matches Some(p) && p@.len() > 0 && event == Event::UserOk) ==> s == EXIT_ERROR
            && final(writer)@ == old(writer)@,
{
    let p = match pin {
        Some(p) => p,
        None => {
            return EXIT_ERROR;
        },
    };
    if p.len() == 0 {
        return EXIT_ERROR;
    }
    if event != Event::UserOk {
        return EXIT_ERROR;
    }
    push_bytes(writer, p);
    push_str(writer, "\n");
    EXIT_OK
}

/// The askpass window title: the arguments joined by spaces, or
/// "SSH Password:" without arguments.
pub open spec fn askpass_title_chars(args: Seq<Seq<char>>) -> Seq<char>
    decreases args.len(),
{
    if args.len() == 0 {
        "SSH Password:"@
    } else if args.len() == 1 {
        args[0]
    } else {
        askpass_title_chars(args.drop_last()) + " "@ + args.last()
    }
}

/// The askpass window title ([`askpass_title_chars`]).
pub fn askpass_title(args: &[String]) -> (t: String)
    ensures
        t@ == askpass_title_chars(args_view(args@)),
{
    if args.len() == 0 {
        return String::from_str("SSH Password:");
    }
    let mut t = to_owned_string(args[0].as_str());
    let mut i: usize = 1;
    proof {
        assert(args_view(args@).take(1) =~= seq![args@[0]@]);
    }
    while i < args.len()
        invariant
            1 <= i <= args@.len(),
            t@ == askpass_title_chars(args_view(args@).take(i as int)),
        decreases args@.len() - i,
    {
        t.append(" ");
        t.append(args[i].as_str());
        proof {
            assert(args_view(args@).take(i + 1).drop_last() =~= args_view(args@).take(i as int));
        }
        i = i + 1;
    }
    proof {
        assert(args_view(args@).take(i as int) =~= args_view(args@));
    }
    t
}

/// What the pinentry loop waits on next.
#[derive(Debug, Clone, Copy, PartialEq, Eq, Structural)]
pub enum PollPlan {
    /// Leave the loop.
    Stop,
    /// Wait for input on standard input and/or the frontend.
    Wait { stdin: bool, frontend: bool },
}

/// Decides what the pinentry loop waits on: it stops once standard input
/// is closed and no prompt is active, or when there is nothing left to
/// wait on; it waits on standard input while it is open and on the
/// frontend while there is one.
pub fn poll_plan(stdin_closed: bool, has_frontend: bool, prompt_idle: bool) -> (p: PollPlan)
    ensures
        (stdin_closed && (prompt_idle || !has_frontend)) ==> p == PollPlan::Stop,
        !(stdin_closed && (prompt_idle || !has_frontend)) ==> p == (PollPlan::Wait {
            stdin: !stdin_closed,
            frontend: has_frontend,
        }),
{
    if stdin_closed && prompt_idle {
        return PollPlan::Stop;
    }
    match (stdin_closed, has_frontend) {
        (false, true) => PollPlan::Wait { stdin: true, frontend: true },
        (false, false) => PollPlan::Wait { stdin: true, frontend: false },
        (true, true) => PollPlan::Wait { stdin: false, frontend: true },
        (true, false) => PollPlan::Stop,
    }
}

/// Collects one byte of standard input into the pending line: a newline
/// completes the line, which is returned and the pending line emptied.
pub fn take_byte(input: &mut Vec<u8>, byte: u8) -> (line: Option<Vec<u8>>)
    ensures
        byte == 0x0a ==> (line matches Some(l) && l@ == old(input)@) && final(input)@.len() == 0,
        byte != 0x0a ==> line is None && final(input)@ == old(input)@.push(byte),
{
    if byte == 0x0a {
        let mut done: Vec<u8> = Vec::new();
        std::mem::swap(&mut done, input);
        Some(done)
    } else {
        input.push(byte);
        None
    }
}

/// The event that ends a prompt, out of what the frontend reported: any
/// event but `NoEvent`.
pub open spec fn spec_final_event(reported: Option<Event>) -> Option<Event> {
    match reported {
        Some(e) => if e == Event::NoEvent {
            None
        } else {
            Some(e)
        },
        None => None,
    }
}

/// The event that ends a prompt, out of what the frontend reported
/// ([`spec_final_event`]).
pub fn final_event(reported: Option<Event>) -> (r: Option<Event>)
    ensures
        r == spec_final_event(reported),
{
    match reported {
        Some(e) => if e == Event::NoEvent {
            None
        } else {
            Some(e)
        },
        None => None,
    }
}

proof fn lemma_ascii_bytes(t: &str)
    requires
        is_ascii_chars(t@),
        forall|i: int| 0 <= i < t@.len() ==> (#[trigger] t@[i] as u32) >= 0x20,
    ensures
        forall|i: int| 0 <= i < t.spec_bytes().len() ==> #[trigger] t.spec_bytes()[i] >= 0x20,
{
    is_ascii_chars_encode_utf8(t@);
    assert forall|i: int| 0 <= i < t.spec_bytes().len() implies #[trigger] t.spec_bytes()[i] >= 0x20 by {
        assert(t@[i] as u8 == t.spec_bytes()[i]);
        assert((t@[i] as u32) < 128);
    }
}

proof fn lemma_escape_printable(b: u8)
    ensures
        forall|i: int| 0 <= i < json_escape(b).len() ==> #[trigger] json_escape(b)[i] >= 0x20,
{
    reveal_strlit("\\\"");
    reveal_strlit("\\\\");
    reveal_strlit("\\n");
    reveal_strlit("\\r");
    reveal_strlit("\\t");
    reveal_strlit("\\u00");
    lemma_ascii_bytes("\\\"");
    lemma_ascii_bytes("\\\\");
    lemma_ascii_bytes("\\n");
    lemma_ascii_bytes("\\r");
    lemma_ascii_bytes("\\t");
    lemma_ascii_bytes("\\u00");
}

/// The JSON escape of any bytes holds no control byte: every byte of it is
/// at least a space.
pub proof fn law_json_escape_has_no_control_bytes(s: Seq<u8>)
    ensures
        forall|i: int| 0 <= i < json_escaped(s).len() ==> #[trigger] json_escaped(s)[i] >= 0x20,
    decreases s.len(),
{
    if s.len() > 0 {
        law_json_escape_has_no_control_bytes(s.drop_last());
        lemma_escape_printable(s.last());
        let a = json_escaped(s.drop_last());
        let e = json_escape(s.last());
        assert forall|i: int| 0 <= i < json_escaped(s).len() implies #[trigger] json_escaped(s)[i] >= 0x20 by {
            if i < a.len() {
                assert(json_escaped(s)[i] == a[i]);
            } else {
                assert(json_escaped(s)[i] == e[i - a.len()]);
            }
        }
    }
}

/// Whether a byte goes into a JSON string as it is: it is no control byte,
/// no `"` and no `\\`.
pub open spec fn json_plain(b: u8) -> bool {
    b >= 0x20 && b != 0x22 && b != 0x5c
}

/// JSON escaping copies every byte that needs no escape unchanged, UTF-8
/// bytes of non-ASCII characters included: text made only of such bytes is
/// its own escape, and the escape of a concatenation is the concatenation
/// of the escapes.
pub proof fn law_json_escape_keeps_plain_bytes(s: Seq<u8>, u: Seq<u8>)
    ensures
        (forall|i: int| 0 <= i < s.len() ==> json_plain(#[trigger] s[i])) ==> json_escaped(s) == s,
        json_escaped(s + u) == json_escaped(s) + json_escaped(u),
    decreases s.len() + u.len(),
{
    if s.len() > 0 {
        law_json_escape_keeps_plain_bytes(s.drop_last(), u);
        if forall|i: int| 0 <= i < s.len() ==> json_plain(#[trigger] s[i]) {
            assert(json_plain(s[s.len() - 1]));
            assert(json_escaped(s.drop_last()) == s.drop_last());
            assert(json_escaped(s) =~= s);
        }
    }
    if u.len() > 0 {
        law_json_escape_keeps_plain_bytes(s, u.drop_last());
        assert((s + u).drop_last() =~= s + u.drop_last());
        assert((s + u).last() == u.last());
        assert(json_escaped(s) + json_escaped(u.drop_last()) + json_escape(u.last()) =~= json_escaped(
            s,
        ) + json_escaped(u));
    } else {
        assert(s + u =~= s);
        assert(json_escaped(s) + json_escaped(u) =~= json_escaped(s));
    }
}

/// Each value flag sets exactly its own field: parsing `flag value` from
/// any request whose field for that flag is unset continues after the two
/// arguments with only that field changed to the value (`--title` the
/// title, `--description` the description, `--prompt` the prompt,
/// `--error` the error message, `--button-ok`, `--button-not-ok` and
/// `--button-cancel` the buttons, `--wayland-display` the display).
pub proof fn law_value_flags_set_own_field(r: CliView, s: Seq<char>, rest: Seq<Seq<char>>)
    ensures
        r.labels.title is None ==> spec_parse_cli(seq!["--title"@, s] + rest, 0, r) == spec_parse_cli(
            seq!["--title"@, s] + rest,
            2,
            CliView { labels: LabelsView { title: Some(s), ..r.labels }, ..r },
        ),
        r.labels.description is None ==> spec_parse_cli(seq!["--description"@, s] + rest, 0, r) == spec_parse_cli(
            seq!["--description"@, s] + rest,
            2,
            CliView { labels: LabelsView { description: Some(s), ..r.labels }, ..r },
        ),
        r.labels.prompt is None ==> spec_parse_cli(seq!["--prompt"@, s] + rest, 0, r) == spec_parse_cli(
            seq!["--prompt"@, s] + rest,
            2,
            CliView { labels: LabelsView { prompt: Some(s), ..r.labels }, ..r },
        ),
        r.labels.err_message is None ==> spec_parse_cli(seq!["--error"@, s] + rest, 0, r) == spec_parse_cli(
            seq!["--error"@, s] + rest,
            2,
            CliView { labels: LabelsView { err_message: Some(s), ..r.labels }, ..r },
        ),
        r.labels.ok is None ==> spec_parse_cli(seq!["--button-ok"@, s] + rest, 0, r) == spec_parse_cli(
            seq!["--button-ok"@, s] + rest,
            2,
            CliView { labels: LabelsView { ok: Some(s), ..r.labels }, ..r },
        ),
        r.labels.not_ok is None ==> spec_parse_cli(seq!["--button-not-ok"@, s] + rest, 0, r) == spec_parse_cli(
            seq!["--button-not-ok"@, s] + rest,
            2,
            CliView { labels: LabelsView { not_ok: Some(s), ..r.labels }, ..r },
        ),
        r.labels.cancel is None ==> spec_parse_cli(seq!["--button-cancel"@, s] + rest, 0, r) == spec_parse_cli(
            seq!["--button-cancel"@, s] + rest,
            2,
            CliView { labels: LabelsView { cancel: Some(s), ..r.labels }, ..r },
        ),
        r.wayland_display is None ==> spec_parse_cli(seq!["--wayland-display"@, s] + rest, 0, r) == spec_parse_cli(
            seq!["--wayland-display"@, s] + rest,
            2,
            CliView { wayland_display: Some(s), ..r },
        ),
{
    reveal_strlit("--title");
    reveal_strlit("--description");
    reveal_strlit("--prompt");
    reveal_strlit("--error");
    reveal_strlit("--button-ok");
    reveal_strlit("--button-not-ok");
    reveal_strlit("--button-cancel");
    reveal_strlit("--wayland-display");
    assert(value_flag("--title"@) == Some(ValueFlag::Title)) by {
    }
    assert(value_flag("--description"@) == Some(ValueFlag::Description)) by {
        assert("--description"@.len() != "--title"@.len());
    }
    assert(value_flag("--prompt"@) == Some(ValueFlag::Prompt)) by {
        assert("--prompt"@.len() != "--title"@.len());
        assert("--prompt"@.len() != "--description"@.len());
    }
    assert(value_flag("--error"@) == Some(ValueFlag::Error)) by {
        assert("--error"@[2] != "--title"@[2]);
        assert("--error"@.len() != "--description"@.len());
        assert("--error"@.len() != "--prompt"@.len());
    }
    assert(value_flag("--button-ok"@) == Some(ValueFlag::ButtonOk)) by {
        assert("--button-ok"@.len() != "--title"@.len());
        assert("--button-ok"@.len() != "--description"@.len());
        assert("--button-ok"@.len() != "--prompt"@.len());
        assert("--button-ok"@.len() != "--error"@.len());
    }
    assert(value_flag("--button-not-ok"@) == Some(ValueFlag::ButtonNotOk)) by {
        assert("--button-not-ok"@.len() != "--title"@.len());
        assert("--button-not-ok"@.len() != "--description"@.len());
        assert("--button-not-ok"@.len() != "--prompt"@.len());
        assert("--button-not-ok"@.len() != "--error"@.len());
        assert("--button-not-ok"@.len() != "--button-ok"@.len());
    }
    assert(value_flag("--button-cancel"@) == Some(ValueFlag::ButtonCancel)) by {
        assert("--button-cancel"@.len() != "--title"@.len());
        assert("--button-cancel"@.len() != "--description"@.len());
        assert("--button-cancel"@.len() != "--prompt"@.len());
        assert("--button-cancel"@.len() != "--error"@.len());
        assert("--button-cancel"@.len() != "--button-ok"@.len());
        assert("--button-cancel"@[9] != "--button-not-ok"@[9]);
    }
    assert(value_flag("--wayland-display"@) == Some(ValueFlag::WaylandDisplay)) by {
        assert("--wayland-display"@.len() != "--title"@.len());
        assert("--wayland-display"@.len() != "--description"@.len());
        assert("--wayland-display"@.len() != "--prompt"@.len());
        assert("--wayland-display"@.len() != "--error"@.len());
        assert("--wayland-display"@.len() != "--button-ok"@.len());
        assert("--wayland-display"@.len() != "--button-not-ok"@.len());
        assert("--wayland-display"@.len() != "--button-cancel"@.len());
    }
}

} // verus!
