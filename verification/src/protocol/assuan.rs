//! Assuan pinentry IPC protocol: percent-decoding, command dispatch,
//! prompt-mode transitions and secret streaming.
use vstd::prelude::*;
use vstd::string::StringSliceAdditionalSpecFns;
use vstd::utf8::*;

use crate::config::{
    all_hex, empty_labels, hex_digits_only, parse_unsigned, parse_unsigned_exec, Config, ConfigView,
    LabelsView,
};
use crate::frontend::{Event, InterfaceMode};
use crate::text::{
    decimal, first_token, lemma_skip_ws_nc, lemma_token_end_nc, push_bytes, push_decimal, push_str,
    second_token, skip_ws, skip_ws_from, str_slice, to_owned_string, token_end, token_end_from,
    upper, upper_eq, upper_seq, utf8_str, ws_len,
};

verus! {

broadcast use vstd::utf8::group_utf8_lib;

/// Error returned by Assuan protocol operations.
#[derive(Debug)]
pub enum AssuanError {
    /// Malformed percent escape or invalid UTF-8 in decoded output.
    DecodeError(&'static str),
    /// Underlying I/O error.
    Io(std::io::Error),
}

impl AssuanError {
    /// The human-readable description of the error. Nothing is stated of
    /// the text of an I/O error.
    pub fn message(&self) -> (m: String)
        ensures
            match self {
                AssuanError::DecodeError(t) => m@ == "assuan decode error: "@ + t@,
                AssuanError::Io(_) => exists|t: Seq<char>| m@ == "assuan I/O error: "@ + t,
            },
    {
        match self {
            AssuanError::DecodeError(t) => {
                let mut m = String::from_str("assuan decode error: ");
                m.append(t);
                m
            },
            AssuanError::Io(e) => {
                let mut m = String::from_str("assuan I/O error: ");
                let text = crate::frontend::io_error_text(e);
                m.append(text.as_str());
                m
            },
        }
    }
}

/// The number of bytes of `b` equal to `x`.
pub open spec fn count_byte(b: Seq<u8>, x: u8) -> nat
    decreases b.len(),
{
    if b.len() == 0 {
        0
    } else {
        count_byte(b.drop_first(), x) + if b[0] == x {
            1nat
        } else {
            0nat
        }
    }
}

/// Percent-decoding of `b`: `%` followed by two ASCII hexadecimal digits
/// gives the byte they spell, `_` is dropped when `strip` holds, and every
/// other byte is kept. `None` at the first malformed escape: a `%` with
/// fewer than two bytes after it, or with a non-digit among them.
pub open spec fn percent_decode(b: Seq<u8>, strip: bool) -> Option<Seq<u8>>
    decreases b.len(),
{
    if b.len() == 0 {
        Some(Seq::empty())
    } else if b[0] == 0x25 {
        if b.len() < 3 || !all_hex(b.subrange(1, 3)) {
            None
        } else {
            match parse_unsigned(b.subrange(1, 3), 16, 255) {
                Some(v) => match percent_decode(b.subrange(3, b.len() as int), strip) {
                    Some(rest) => Some(seq![v as u8] + rest),
                    None => None,
                },
                None => None,
            }
        }
    } else if b[0] == 0x5f && strip {
        percent_decode(b.drop_first(), strip)
    } else {
        match percent_decode(b.drop_first(), strip) {
            Some(rest) => Some(seq![b[0]] + rest),
            None => None,
        }
    }
}

/// The decoded text: the percent-decoding when it exists and is valid
/// UTF-8.
pub open spec fn spec_decode(b: Seq<u8>, strip: bool) -> Option<Seq<char>> {
    match percent_decode(b, strip) {
        Some(o) => if valid_utf8(o) {
            Some(decode_utf8(o))
        } else {
            None
        },
        None => None,
    }
}

/// Decodes an Assuan percent-encoded string, optionally stripping hotkey
/// underscores.
pub fn assuan_decode(input: &str, strip_hotkey: bool) -> (r: Result<String, AssuanError>)
    ensures
        match spec_decode(input.spec_bytes(), strip_hotkey) {
            Some(s) => r matches Ok(t) && t@ == s,
            None => r matches Err(AssuanError::DecodeError(_)),
        },
{
    let bytes = input.as_bytes();
    let mut out: Vec<u8> = Vec::new();
    let mut i: usize = 0;
    assert(bytes@.subrange(0, bytes@.len() as int) =~= bytes@);
    while i < bytes.len()
        invariant
            i <= bytes@.len(),
            bytes@ == input.spec_bytes(),
            percent_decode(bytes@, strip_hotkey) == match percent_decode(
                bytes@.subrange(i as int, bytes@.len() as int),
                strip_hotkey,
            ) {
                Some(rest) => Some(out@ + rest),
                None => None,
            },
        decreases bytes@.len() - i,
    {
        let ghost rest = bytes@.subrange(i as int, bytes@.len() as int);
        if bytes[i] == 0x25 {
            if bytes.len() - i < 3 {
                return Err(AssuanError::DecodeError("malformed percent escape"));
            }
            let pair = &bytes[i + 1..i + 3];
            proof {
                assert(rest.subrange(1, 3) =~= pair@);
                assert(rest.subrange(3, rest.len() as int) =~= bytes@.subrange(
                    i + 3,
                    bytes@.len() as int,
                ));
            }
            if !hex_digits_only(pair) {
                return Err(AssuanError::DecodeError("malformed percent escape"));
            }
            let v = match parse_unsigned_exec(pair, 16, 255) {
                Some(v) => v,
                None => {
                    return Err(AssuanError::DecodeError("malformed percent escape"));
                },
            };
            let ghost before = out@;
            out.push(v as u8);
            proof {
                match percent_decode(rest.subrange(3, rest.len() as int), strip_hotkey) {
                    Some(tail) => {
                        assert(before + (seq![v as u8] + tail) =~= out@ + tail);
                    },
                    None => {},
                }
            }
            i = i + 3;
        } else if bytes[i] == 0x5f && strip_hotkey {
            proof {
                assert(rest.drop_first() =~= bytes@.subrange(i + 1, bytes@.len() as int));
            }
            i = i + 1;
        } else {
            let ghost before = out@;
            out.push(bytes[i]);
            proof {
                assert(rest.drop_first() =~= bytes@.subrange(i + 1, bytes@.len() as int));
                match percent_decode(rest.drop_first(), strip_hotkey) {
                    Some(tail) => {
                        assert(before + (seq![rest[0]] + tail) =~= out@ + tail);
                    },
                    None => {},
                }
            }
            i = i + 1;
        }
    }
    proof {
        assert(bytes@.subrange(i as int, bytes@.len() as int) =~= Seq::<u8>::empty());
        assert(out@ + Seq::<u8>::empty() =~= out@);
    }
    match utf8_str(out.as_slice()) {
        Some(s) => {
            proof {
                encode_utf8_decode_utf8(s@);
            }
            Ok(s.to_owned())
        },
        None => Err(AssuanError::DecodeError("malformed percent escape")),
    }
}

/// Assuan-level prompt mode. `Confirm` and `Message` both show the
/// frontend's message mode.
#[derive(Debug, Clone, Copy, PartialEq, Eq, Structural)]
pub enum AssuanMode {
    /// No prompt active.
    NoPrompt,
    GetPin,
    Confirm,
    Message,
}

/// Assuan protocol state machine. Holds the output buffer and the protocol
/// state; the configuration is passed in per call.
pub struct AssuanRepl {
    writer: Vec<u8>,
    mode: AssuanMode,
    default_ok: Option<String>,
    default_cancel: Option<String>,
    default_yes: Option<String>,
    default_no: Option<String>,
    is_running: bool,
    pid: u32,
}

/// The protocol state: the bytes written so far, the prompt mode, the
/// default button labels set by `OPTION`, whether the loop runs, and the
/// process id reported by `GETINFO pid`.
pub struct ReplView {
    pub writer: Seq<u8>,
    pub mode: AssuanMode,
    pub default_ok: Option<Seq<char>>,
    pub default_cancel: Option<Seq<char>>,
    pub default_yes: Option<Seq<char>>,
    pub default_no: Option<Seq<char>>,
    pub is_running: bool,
    pub pid: u32,
}

impl View for AssuanRepl {
    type V = ReplView;

    closed spec fn view(&self) -> ReplView {
        ReplView {
            writer: self.writer@,
            mode: self.mode,
            default_ok: crate::config::opt_view(self.default_ok),
            default_cancel: crate::config::opt_view(self.default_cancel),
            default_yes: crate::config::opt_view(self.default_yes),
            default_no: crate::config::opt_view(self.default_no),
            is_running: self.is_running,
            pid: self.pid,
        }
    }
}

/// The greeting written when the protocol starts.
pub open spec fn greeting() -> Seq<u8> {
    "OK wayprompt is pleased to meet you\n".spec_bytes()
}

/// `r` with `text` written.
pub open spec fn written(r: ReplView, text: Seq<u8>) -> ReplView {
    ReplView { writer: r.writer + text, ..r }
}

/// The second token of the line (empty when there is none).
pub open spec fn second_word(b: Seq<u8>) -> Seq<u8> {
    match second_token(b) {
        Some((s, e)) => b.subrange(s, e),
        None => Seq::empty(),
    }
}

/// The line from byte `k` on, when `k` is a character boundary of it
/// (`str::get(k..)`).
pub open spec fn suffix_at(b: Seq<u8>, k: int) -> Option<Seq<u8>> {
    if is_char_boundary(b, k) {
        Some(b.subrange(k, b.len() as int))
    } else {
        None
    }
}

/// The line from byte `k` on, or nothing when `k` is not a boundary.
pub open spec fn suffix_or_empty(b: Seq<u8>, k: int) -> Seq<u8> {
    match suffix_at(b, k) {
        Some(s) => s,
        None => Seq::empty(),
    }
}

/// Whether `s` starts with `p`.
pub open spec fn starts(s: Seq<u8>, p: Seq<u8>) -> bool {
    s.len() >= p.len() && s.subrange(0, p.len() as int) == p
}

/// The value of `OPTION <opt>...`: when the option word starts with `opt`,
/// the line from byte `"option ".len() + opt.len()` on.
pub open spec fn option_value(b: Seq<u8>, opt: Seq<u8>) -> Option<Seq<u8>> {
    if starts(second_word(b), opt) {
        suffix_at(b, 7 + opt.len() as int)
    } else {
        None
    }
}

/// A label of the configuration.
#[derive(Clone, Copy, PartialEq, Eq, Structural)]
pub enum LabelField {
    Title,
    Prompt,
    Description,
    ErrMessage,
    OkButton,
    NotOkButton,
    CancelButton,
}

/// `l` with label `f` replaced by `v`.
pub open spec fn with_label(l: LabelsView, f: LabelField, v: Option<Seq<char>>) -> LabelsView {
    match f {
        LabelField::Title => LabelsView { title: v, ..l },
        LabelField::Prompt => LabelsView { prompt: v, ..l },
        LabelField::Description => LabelsView { description: v, ..l },
        LabelField::ErrMessage => LabelsView { err_message: v, ..l },
        LabelField::OkButton => LabelsView { ok: v, ..l },
        LabelField::NotOkButton => LabelsView { not_ok: v, ..l },
        LabelField::CancelButton => LabelsView { cancel: v, ..l },
    }
}

/// The outcome of handling one input line.
pub enum LineOutcome {
    /// The line was handled: the new protocol state, the new configuration
    /// and the mode the frontend has to enter, if any.
    Handled(ReplView, ConfigView, Option<InterfaceMode>),
    /// A percent escape or the decoded text was malformed; nothing changed.
    Malformed,
}

/// The `OK` reply.
pub open spec fn ok_reply() -> Seq<u8> {
    "OK\n".spec_bytes()
}

/// A label command: decode `args` and store it in label `f`, then reply OK.
pub open spec fn label_outcome(r: ReplView, c: ConfigView, args: Seq<u8>, f: LabelField) -> LineOutcome {
    match spec_decode(args, false) {
        Some(s) => LineOutcome::Handled(
            written(r, ok_reply()),
            ConfigView { labels: with_label(c.labels, f, Some(s)), ..c },
            None,
        ),
        None => LineOutcome::Malformed,
    }
}

/// `GETPIN`: move the default OK/cancel labels into unset labels, enter the
/// PIN prompt.
pub open spec fn getpin_outcome(r: ReplView, c: ConfigView) -> LineOutcome {
    let move_ok = c.labels.ok is None && r.default_ok is Some;
    let move_cancel = c.labels.cancel is None && r.default_cancel is Some;
    LineOutcome::Handled(
        ReplView {
            mode: AssuanMode::GetPin,
            default_ok: if move_ok {
                None
            } else {
                r.default_ok
            },
            default_cancel: if move_cancel {
                None
            } else {
                r.default_cancel
            },
            ..r
        },
        ConfigView {
            labels: LabelsView {
                ok: if move_ok {
                    r.default_ok
                } else {
                    c.labels.ok
                },
                cancel: if move_cancel {
                    r.default_cancel
                } else {
                    c.labels.cancel
                },
                ..c.labels
            },
            ..c
        },
        Some(InterfaceMode::GetPin),
    )
}

/// `CONFIRM`: move the default yes/no labels into unset OK/cancel labels,
/// enter the message prompt.
pub open spec fn confirm_outcome(r: ReplView, c: ConfigView) -> LineOutcome {
    let move_ok = c.labels.ok is None && r.default_yes is Some;
    let move_cancel = c.labels.cancel is None && r.default_no is Some;
    LineOutcome::Handled(
        ReplView {
            mode: AssuanMode::Confirm,
            default_yes: if move_ok {
                None
            } else {
                r.default_yes
            },
            default_no: if move_cancel {
                None
            } else {
                r.default_no
            },
            ..r
        },
        ConfigView {
            labels: LabelsView {
                ok: if move_ok {
                    r.default_yes
                } else {
                    c.labels.ok
                },
                cancel: if move_cancel {
                    r.default_no
                } else {
                    c.labels.cancel
                },
                ..c.labels
            },
            ..c
        },
        Some(InterfaceMode::Message),
    )
}

/// `MESSAGE`: with nothing to display just reply OK, else enter the message
/// prompt.
pub open spec fn message_outcome(r: ReplView, c: ConfigView) -> LineOutcome {
    if c.labels.title is None && c.labels.description is None && c.labels.err_message is None {
        LineOutcome::Handled(written(r, ok_reply()), c, None)
    } else {
        LineOutcome::Handled(
            ReplView { mode: AssuanMode::Message, ..r },
            c,
            Some(InterfaceMode::Message),
        )
    }
}

/// The data lines of `GETINFO <what>` (before the final OK).
pub open spec fn getinfo_text(what: Seq<u8>, pid: u32) -> Seq<u8> {
    if what == "FLAVOR".spec_bytes() {
        "D wayprompt\nEND\n".spec_bytes()
    } else if what == "VERSION".spec_bytes() {
        "D 0.0.0\nEND\n".spec_bytes()
    } else if what == "PID".spec_bytes() {
        "D ".spec_bytes() + decimal(pid as nat) + "\nEND\n".spec_bytes()
    } else {
        Seq::empty()
    }
}

/// `OPTION`: the first recognised option prefix sets its value; unknown
/// options are accepted. `None` when a default label is malformed.
pub open spec fn option_effect(r: ReplView, c: ConfigView, b: Seq<u8>) -> Option<(ReplView, ConfigView)> {
    if option_value(b, "putenv=WAYLAND_DISPLAY=".spec_bytes()) is Some {
        Some(
            (
                r,
                ConfigView {
                    wayland_display: Some(
                        decode_utf8(option_value(b, "putenv=WAYLAND_DISPLAY=".spec_bytes())->0),
                    ),
                    ..c
                },
            ),
        )
    } else if option_value(b, "ttyname=".spec_bytes()) is Some {
        Some(
            (
                r,
                ConfigView {
                    tty_name: Some(decode_utf8(option_value(b, "ttyname=".spec_bytes())->0)),
                    ..c
                },
            ),
        )
    } else if option_value(b, "default-ok=".spec_bytes()) is Some {
        match spec_decode(option_value(b, "default-ok=".spec_bytes())->0, true) {
            Some(s) => Some((ReplView { default_ok: Some(s), ..r }, c)),
            None => None,
        }
    } else if option_value(b, "default-cancel=".spec_bytes()) is Some {
        match spec_decode(option_value(b, "default-cancel=".spec_bytes())->0, true) {
            Some(s) => Some((ReplView { default_cancel: Some(s), ..r }, c)),
            None => None,
        }
    } else if option_value(b, "default-yes=".spec_bytes()) is Some {
        match spec_decode(option_value(b, "default-yes=".spec_bytes())->0, true) {
            Some(s) => Some((ReplView { default_yes: Some(s), ..r }, c)),
            None => None,
        }
    } else if option_value(b, "default-no=".spec_bytes()) is Some {
        match spec_decode(option_value(b, "default-no=".spec_bytes())->0, true) {
            Some(s) => Some((ReplView { default_no: Some(s), ..r }, c)),
            None => None,
        }
    } else {
        Some((r, c))
    }
}

/// The reply to `HELP`.
pub open spec fn help_text() -> Seq<u8> {
    "# NOP\n# SETTITLE\n# SETPROMPT\n# SETDESC\n# SETERROR\n# GETPIN\n# BYE\n# OPTION\n# RESET\nOK\n".spec_bytes()
}

/// An Assuan command, recognised by its upper-cased command word.
#[derive(Debug, Clone, Copy, PartialEq, Eq, Structural)]
pub enum Command {
    SetTitle,
    SetPrompt,
    SetDesc,
    SetError,
    SetOk,
    SetNotOk,
    SetCancel,
    GetPin,
    Confirm,
    Message,
    GetInfo,
    Bye,
    SetOption,
    Reset,
    Nop,
    SetKeyInfo,
    Help,
    /// A known command that is answered as not implemented.
    NotImplemented,
    /// Any other word.
    Unknown,
}

/// The command named by the upper-cased word `w`.
pub open spec fn spec_command(w: Seq<u8>) -> Command {
    if w == "SETTITLE".spec_bytes() {
        Command::SetTitle
    } else if w == "SETPROMPT".spec_bytes() {
        Command::SetPrompt
    } else if w == "SETDESC".spec_bytes() {
        Command::SetDesc
    } else if w == "SETERROR".spec_bytes() {
        Command::SetError
    } else if w == "SETOK".spec_bytes() {
        Command::SetOk
    } else if w == "SETNOTOK".spec_bytes() {
        Command::SetNotOk
    } else if w == "SETCANCEL".spec_bytes() {
        Command::SetCancel
    } else if w == "GETPIN".spec_bytes() {
        Command::GetPin
    } else if w == "CONFIRM".spec_bytes() {
        Command::Confirm
    } else if w == "MESSAGE".spec_bytes() {
        Command::Message
    } else if w == "GETINFO".spec_bytes() {
        Command::GetInfo
    } else if w == "BYE".spec_bytes() {
        Command::Bye
    } else if w == "OPTION".spec_bytes() {
        Command::SetOption
    } else if w == "RESET".spec_bytes() {
        Command::Reset
    } else if w == "NOP".spec_bytes() {
        Command::Nop
    } else if w == "HELP".spec_bytes() {
        Command::Help
    } else if w == "SETKEYINFO".spec_bytes() {
        Command::SetKeyInfo
    } else if w == "CANCEL".spec_bytes() || w == "SETGENPIN".spec_bytes() || w
        == "SETGENPIN_TT".spec_bytes() || w == "SETTIMEOUT".spec_bytes() || w == "END".spec_bytes()
        || w == "QUIT".spec_bytes() || w == "AUTH".spec_bytes() || w == "CLEARPASSPHRASE".spec_bytes()
        || w == "SETREPEAT".spec_bytes() || w == "SETREPEATERROR".spec_bytes() || w
        == "SETQUALITYBAR".spec_bytes() || w == "SETQUALITYBAR_TT".spec_bytes() {
        Command::NotImplemented
    } else {
        Command::Unknown
    }
}

/// The command of line `b`, from its first whitespace-separated word.
pub open spec fn line_command(b: Seq<u8>) -> Option<Command> {
    match first_token(b) {
        Some((s, e)) => Some(spec_command(upper_seq(b.subrange(s, e)))),
        None => None,
    }
}

/// The byte length of the command word of line `b` (0 when there is none).
pub open spec fn cmd_len(b: Seq<u8>) -> int {
    match first_token(b) {
        Some((s, e)) => e - s,
        None => 0,
    }
}

/// The effect of one input line `b` (its UTF-8 bytes). Lines received while
/// a prompt is active, and lines without a command word, are dropped. The
/// label commands take their argument from byte `cmd_len(b)` on (`SETTITLE`,
/// `SETPROMPT`, `SETDESC`, `SETERROR`) or from one byte further
/// (`SETOK`, `SETNOTOK`, `SETCANCEL`).
pub open spec fn spec_line(r: ReplView, c: ConfigView, b: Seq<u8>) -> LineOutcome {
    let k = cmd_len(b);
    let whole = b.subrange(k, b.len() as int);
    let skip_one = suffix_or_empty(b, k + 1);
    if r.mode != AssuanMode::NoPrompt {
        LineOutcome::Handled(r, c, None)
    } else {
        match line_command(b) {
            None => LineOutcome::Handled(r, c, None),
            Some(Command::SetTitle) => label_outcome(r, c, whole, LabelField::Title),
            Some(Command::SetPrompt) => label_outcome(r, c, whole, LabelField::Prompt),
            Some(Command::SetDesc) => label_outcome(r, c, whole, LabelField::Description),
            Some(Command::SetError) => label_outcome(r, c, whole, LabelField::ErrMessage),
            Some(Command::SetOk) => label_outcome(r, c, skip_one, LabelField::OkButton),
            Some(Command::SetNotOk) => label_outcome(r, c, skip_one, LabelField::NotOkButton),
            Some(Command::SetCancel) => label_outcome(r, c, skip_one, LabelField::CancelButton),
            Some(Command::GetPin) => getpin_outcome(r, c),
            Some(Command::Confirm) => confirm_outcome(r, c),
            Some(Command::Message) => message_outcome(r, c),
            Some(Command::GetInfo) => LineOutcome::Handled(
                written(r, getinfo_text(upper_seq(second_word(b)), r.pid) + ok_reply()),
                c,
                None,
            ),
            Some(Command::Bye) => LineOutcome::Handled(
                ReplView { is_running: false, ..written(r, ok_reply()) },
                c,
                None,
            ),
            Some(Command::SetOption) => match option_effect(r, c, b) {
                Some((r2, c2)) => LineOutcome::Handled(written(r2, ok_reply()), c2, None),
                None => LineOutcome::Malformed,
            },
            Some(Command::Reset) => LineOutcome::Handled(
                written(r, ok_reply()),
                ConfigView { labels: empty_labels(), ..c },
                None,
            ),
            Some(Command::Nop) => LineOutcome::Handled(written(r, ok_reply()), c, None),
            Some(Command::SetKeyInfo) => LineOutcome::Handled(written(r, ok_reply()), c, None),
            Some(Command::Help) => LineOutcome::Handled(written(r, help_text()), c, None),
            Some(Command::NotImplemented) => LineOutcome::Handled(
                written(r, "ERR 536870981 Not implemented\n".spec_bytes()),
                c,
                None,
            ),
            Some(Command::Unknown) => LineOutcome::Handled(
                written(r, "ERR 536871187 Unknown IPC command\n".spec_bytes()),
                c,
                None,
            ),
        }
    }
}

/// Whether handling line `b` in mode `mode` stays within what the
/// protocol handler is defined on: the four commands that cut their
/// argument at the command's byte length need a character boundary there.
pub open spec fn line_defined(mode: AssuanMode, b: Seq<u8>) -> bool {
    let k = cmd_len(b);
    if mode != AssuanMode::NoPrompt {
        true
    } else {
        match line_command(b) {
            Some(Command::SetTitle) | Some(Command::SetPrompt) | Some(Command::SetDesc) | Some(
                Command::SetError,
            ) => is_char_boundary(b, k),
            _ => true,
        }
    }
}

/// The reply to a `D`-data secret: the secret in a data line, `END`, then
/// `OK`; just `OK` without a secret.
pub open spec fn pin_reply(secret: Option<Seq<u8>>) -> Seq<u8> {
    match secret {
        Some(p) => "D ".spec_bytes() + p + "\nEND\nOK\n".spec_bytes(),
        None => ok_reply(),
    }
}

/// The bytes of an optional byte slice.
pub open spec fn opt_bytes(o: Option<&[u8]>) -> Option<Seq<u8>> {
    match o {
        Some(b) => Some(b@),
        None => None,
    }
}

/// The reply to a frontend event in prompt mode `mode`.
pub open spec fn event_reply(mode: AssuanMode, secret: Option<Seq<u8>>, e: Event) -> Seq<u8> {
    match e {
        Event::UserAbort => "ERR 83886179 Operation cancelled\n".spec_bytes(),
        Event::UserNotOk => "ERR 83886194 not confirmed\n".spec_bytes(),
        Event::UserOk => if mode == AssuanMode::GetPin {
            pin_reply(secret)
        } else {
            ok_reply()
        },
        Event::NoEvent => Seq::empty(),
    }
}

/// The effect of a frontend event: every event but `NoEvent` is answered,
/// clears the error message after a PIN or confirm prompt, and ends the
/// prompt.
pub open spec fn spec_event(r: ReplView, c: ConfigView, secret: Option<Seq<u8>>, e: Event) -> (
    ReplView,
    ConfigView,
) {
    if e == Event::NoEvent {
        (r, c)
    } else {
        (
            ReplView { mode: AssuanMode::NoPrompt, ..written(r, event_reply(r.mode, secret, e)) },
            if r.mode == AssuanMode::GetPin || r.mode == AssuanMode::Confirm {
                ConfigView { labels: LabelsView { err_message: None, ..c.labels }, ..c }
            } else {
                c
            },
        )
    }
}

/// A position past the end of a valid UTF-8 sequence is no character
/// boundary.
proof fn lemma_past_end(b: Seq<u8>, i: int)
    requires
        valid_utf8(b),
        i > b.len(),
    ensures
        !is_char_boundary(b, i),
{
}

/// Whether `s` starts with `p`.
fn starts_with(s: &[u8], p: &[u8]) -> (r: bool)
    ensures
        r == starts(s@, p@),
{
    if p.len() > s.len() {
        return false;
    }
    let mut i: usize = 0;
    while i < p.len()
        invariant
            p@.len() <= s@.len(),
            i <= p@.len(),
            forall|j: int| 0 <= j < i ==> s@[j] == p@[j],
        decreases p@.len() - i,
    {
        if s[i] != p[i] {
            proof {
                assert(s@.subrange(0, p@.len() as int)[i as int] != p@[i as int]);
            }
            return false;
        }
        i = i + 1;
    }
    proof {
        assert(s@.subrange(0, p@.len() as int) =~= p@);
    }
    true
}

/// The command named by `b[s..e]`, upper-cased.
fn classify(b: &[u8], s: usize, e: usize) -> (c: Command)
    requires
        s <= e <= b@.len(),
    ensures
        c == spec_command(upper_seq(b@.subrange(s as int, e as int))),
{
    if upper_eq(b, s, e, "SETTITLE".as_bytes()) {
        Command::SetTitle
    } else if upper_eq(b, s, e, "SETPROMPT".as_bytes()) {
        Command::SetPrompt
    } else if upper_eq(b, s, e, "SETDESC".as_bytes()) {
        Command::SetDesc
    } else if upper_eq(b, s, e, "SETERROR".as_bytes()) {
        Command::SetError
    } else if upper_eq(b, s, e, "SETOK".as_bytes()) {
        Command::SetOk
    } else if upper_eq(b, s, e, "SETNOTOK".as_bytes()) {
        Command::SetNotOk
    } else if upper_eq(b, s, e, "SETCANCEL".as_bytes()) {
        Command::SetCancel
    } else if upper_eq(b, s, e, "GETPIN".as_bytes()) {
        Command::GetPin
    } else if upper_eq(b, s, e, "CONFIRM".as_bytes()) {
        Command::Confirm
    } else if upper_eq(b, s, e, "MESSAGE".as_bytes()) {
        Command::Message
    } else if upper_eq(b, s, e, "GETINFO".as_bytes()) {
        Command::GetInfo
    } else if upper_eq(b, s, e, "BYE".as_bytes()) {
        Command::Bye
    } else if upper_eq(b, s, e, "OPTION".as_bytes()) {
        Command::SetOption
    } else if upper_eq(b, s, e, "RESET".as_bytes()) {
        Command::Reset
    } else if upper_eq(b, s, e, "NOP".as_bytes()) {
        Command::Nop
    } else if upper_eq(b, s, e, "HELP".as_bytes()) {
        Command::Help
    } else if upper_eq(b, s, e, "SETKEYINFO".as_bytes()) {
        Command::SetKeyInfo
    } else if upper_eq(b, s, e, "CANCEL".as_bytes()) || upper_eq(b, s, e, "SETGENPIN".as_bytes())
        || upper_eq(b, s, e, "SETGENPIN_TT".as_bytes()) || upper_eq(
        b,
        s,
        e,
        "SETTIMEOUT".as_bytes(),
    ) || upper_eq(b, s, e, "END".as_bytes()) || upper_eq(b, s, e, "QUIT".as_bytes()) || upper_eq(
        b,
        s,
        e,
        "AUTH".as_bytes(),
    ) || upper_eq(b, s, e, "CLEARPASSPHRASE".as_bytes()) || upper_eq(
        b,
        s,
        e,
        "SETREPEAT".as_bytes(),
    ) || upper_eq(b, s, e, "SETREPEATERROR".as_bytes()) || upper_eq(
        b,
        s,
        e,
        "SETQUALITYBAR".as_bytes(),
    ) || upper_eq(b, s, e, "SETQUALITYBAR_TT".as_bytes()) {
        Command::NotImplemented
    } else {
        Command::Unknown
    }
}

/// The offsets of the first whitespace-separated token of `b`.
fn first_word(b: &[u8]) -> (r: Option<(usize, usize)>)
    ensures
        r is None <==> first_token(b@) is None,
        r matches Some((s, e)) ==> first_token(b@) == Some((s as int, e as int)) && s <= e
            <= b@.len(),
{
    let s = skip_ws_from(b, 0);
    if s < b.len() {
        let e = token_end_from(b, s);
        Some((s, e))
    } else {
        None
    }
}

/// The offsets of the second whitespace-separated token of `b`; an empty
/// range at the end when there is none.
fn second_word_bounds(b: &[u8]) -> (r: (usize, usize))
    ensures
        r.0 <= r.1 <= b@.len(),
        b@.subrange(r.0 as int, r.1 as int) == second_word(b@),
{
    let n = b.len();
    match first_word(b) {
        Some((_, e1)) => {
            let s = skip_ws_from(b, e1);
            if s < n {
                let e = token_end_from(b, s);
                (s, e)
            } else {
                proof {
                    assert(b@.subrange(n as int, n as int) =~= Seq::<u8>::empty());
                }
                (n, n)
            }
        },
        None => {
            proof {
                assert(b@.subrange(n as int, n as int) =~= Seq::<u8>::empty());
            }
            (n, n)
        },
    }
}

/// The value of option `opt` on the `OPTION` line `line`, whose second
/// word is `arg`.
fn get_option<'a>(opt: &str, arg: &[u8], line: &'a str) -> (r: Option<&'a str>)
    requires
        arg@ == second_word(line.spec_bytes()),
        arg@.len() <= line.spec_bytes().len(),
    ensures
        match option_value(line.spec_bytes(), opt.spec_bytes()) {
            Some(v) => r matches Some(t) && t.spec_bytes() == v && t@ == decode_utf8(v),
            None => r is None,
        },
{
    let ob = opt.as_bytes();
    if !starts_with(arg, ob) {
        return None;
    }
    let n = line.as_bytes().len();
    let m = ob.len();
    proof {
        encode_utf8_valid_utf8(line@);
    }
    if n - m < 7 {
        proof {
            lemma_past_end(line.spec_bytes(), 7 + opt.spec_bytes().len() as int);
        }
        return None;
    }
    let k = m + 7;
    if line.is_char_boundary(k) {
        proof {
            is_char_boundary_start_end_of_seq(line.spec_bytes());
        }
        Some(str_slice(line, k, n))
    } else {
        None
    }
}

/// Writes the reply to a successful PIN prompt: the secret in a data line
/// followed by `END` and `OK`, or just `OK` without a secret.
pub fn dump_pin(writer: &mut Vec<u8>, secret: Option<&[u8]>)
    ensures
        final(writer)@ == old(writer)@ + pin_reply(opt_bytes(secret)),
{
    match secret {
        Some(bytes) => {
            push_str(writer, "D ");
            push_bytes(writer, bytes);
            push_str(writer, "\nEND\nOK\n");
            proof {
                assert(final(writer)@ =~= old(writer)@ + pin_reply(opt_bytes(secret)));
            }
        },
        None => {
            push_str(writer, "OK\n");
        },
    }
}

impl AssuanRepl {
    /// Starts the protocol: the greeting is written to `writer`; `pid` is
    /// the process id that `GETINFO pid` reports.
    pub fn new(writer: Vec<u8>, pid: u32) -> (r: AssuanRepl)
        ensures
            r@ == (ReplView {
                writer: writer@ + greeting(),
                mode: AssuanMode::NoPrompt,
                default_ok: None,
                default_cancel: None,
                default_yes: None,
                default_no: None,
                is_running: true,
                pid,
            }),
    {
        let mut writer = writer;
        push_str(&mut writer, "OK wayprompt is pleased to meet you\n");
        AssuanRepl {
            writer,
            mode: AssuanMode::NoPrompt,
            default_ok: None,
            default_cancel: None,
            default_yes: None,
            default_no: None,
            is_running: true,
            pid,
        }
    }

    /// Whether the protocol loop should keep running.
    pub fn is_running(&self) -> (r: bool)
        ensures
            r == self@.is_running,
    {
        self.is_running
    }

    /// The current prompt mode.
    pub fn mode(&self) -> (m: AssuanMode)
        ensures
            m == self@.mode,
    {
        self.mode
    }

    /// Whether no prompt is active.
    pub fn mode_is_none(&self) -> (r: bool)
        ensures
            r == (self@.mode == AssuanMode::NoPrompt),
    {
        self.mode == AssuanMode::NoPrompt
    }

    /// The default OK label set by `OPTION default-ok=`, if any.
    pub fn default_ok(&self) -> (r: Option<String>)
        ensures
            crate::config::opt_view(r) == self@.default_ok,
    {
        match &self.default_ok {
            Some(s) => Some(s.clone()),
            None => None,
        }
    }

    /// The output written so far, for the caller to send and clear.
    pub fn get_writer(&mut self) -> (w: &mut Vec<u8>)
        ensures
            w@ == old(self)@.writer,
            final(self)@ == (ReplView { writer: final(w)@, ..old(self)@ }),
    {
        &mut self.writer
    }

    /// Writes `text`.
    fn reply(&mut self, text: &str)
        ensures
            final(self)@ == written(old(self)@, text.spec_bytes()),
    {
        push_str(&mut self.writer, text);
    }

    /// Whether handling `line` needs a frontend first: a PIN or confirm
    /// prompt, or a message with something to display, while no prompt is
    /// active.
    pub fn requires_frontend(&self, cfg: &Config, line: &str) -> (r: bool)
        ensures
            r == needs_frontend(self@, cfg@, line.spec_bytes()),
    {
        if self.mode != AssuanMode::NoPrompt {
            return false;
        }
        let b = line.as_bytes();
        match first_word(b) {
            None => false,
            Some((s, e)) => match classify(b, s, e) {
                Command::GetPin | Command::Confirm => true,
                Command::Message => cfg.labels.title.is_some() || cfg.labels.description.is_some()
                    || cfg.labels.err_message.is_some(),
                _ => false,
            },
        }
    }
}

impl AssuanRepl {
    /// A label command: decodes `args` into label `f` and replies OK.
    fn set_label(&mut self, cfg: &mut Config, args: &str, f: LabelField) -> (r: Result<
        (),
        AssuanError,
    >)
        ensures
            match label_outcome(old(self)@, old(cfg)@, args.spec_bytes(), f) {
                LineOutcome::Handled(r2, c2, _) => r is Ok && final(self)@ == r2 && final(cfg)@
                    == c2,
                LineOutcome::Malformed => r matches Err(AssuanError::DecodeError(_))
                    && final(self)@ == old(self)@ && final(cfg)@ == old(cfg)@,
            },
    {
        let text = match assuan_decode(args, false) {
            Ok(t) => t,
            Err(e) => {
                return Err(e);
            },
        };
        match f {
            LabelField::Title => cfg.labels.title = Some(text),
            LabelField::Prompt => cfg.labels.prompt = Some(text),
            LabelField::Description => cfg.labels.description = Some(text),
            LabelField::ErrMessage => cfg.labels.err_message = Some(text),
            LabelField::OkButton => cfg.labels.ok = Some(text),
            LabelField::NotOkButton => cfg.labels.not_ok = Some(text),
            LabelField::CancelButton => cfg.labels.cancel = Some(text),
        }
        self.reply("OK\n");
        Ok(())
    }

    /// `OPTION`: the first recognised option prefix of the second word sets
    /// its value; the reply is left to the caller.
    fn handle_option(&mut self, cfg: &mut Config, line: &str) -> (r: Result<(), AssuanError>)
        ensures
            match option_effect(old(self)@, old(cfg)@, line.spec_bytes()) {
                Some((r2, c2)) => r is Ok && final(self)@ == r2 && final(cfg)@ == c2,
                None => r matches Err(AssuanError::DecodeError(_)) && final(self)@ == old(self)@
                    && final(cfg)@ == old(cfg)@,
            },
    {
        let b = line.as_bytes();
        let (s2, e2) = second_word_bounds(b);
        let arg = &b[s2..e2];
        if let Some(val) = get_option("putenv=WAYLAND_DISPLAY=", arg, line) {
            cfg.wayland_display = Some(to_owned_string(val));
        } else if let Some(val) = get_option("ttyname=", arg, line) {
            cfg.tty_name = Some(to_owned_string(val));
        } else if let Some(val) = get_option("default-ok=", arg, line) {
            match assuan_decode(val, true) {
                Ok(t) => self.default_ok = Some(t),
                Err(e) => {
                    return Err(e);
                },
            }
        } else if let Some(val) = get_option("default-cancel=", arg, line) {
            match assuan_decode(val, true) {
                Ok(t) => self.default_cancel = Some(t),
                Err(e) => {
                    return Err(e);
                },
            }
        } else if let Some(val) = get_option("default-yes=", arg, line) {
            match assuan_decode(val, true) {
                Ok(t) => self.default_yes = Some(t),
                Err(e) => {
                    return Err(e);
                },
            }
        } else if let Some(val) = get_option("default-no=", arg, line) {
            match assuan_decode(val, true) {
                Ok(t) => self.default_no = Some(t),
                Err(e) => {
                    return Err(e);
                },
            }
        }
        Ok(())
    }
}

impl AssuanRepl {
    /// Handles one input line: updates the protocol state and the
    /// configuration and writes the reply as [`spec_line`] states. Returns
    /// the mode the frontend has to enter, if any: the caller hands exactly
    /// that mode to the frontend, and calls it not at all when there is
    /// none or the line is malformed.
    #[verifier::rlimit(50)]
    pub fn handle_line(&mut self, cfg: &mut Config, line: &str) -> (r: Result<
        Option<InterfaceMode>,
        AssuanError,
    >)
        requires
            line_defined(old(self)@.mode, line.spec_bytes()),
        ensures
            match spec_line(old(self)@, old(cfg)@, line.spec_bytes()) {
                LineOutcome::Handled(r2, c2, m) => r matches Ok(x) && x == m && final(self)@ == r2
                    && final(cfg)@ == c2,
                LineOutcome::Malformed => r matches Err(AssuanError::DecodeError(_))
                    && final(self)@ == old(self)@ && final(cfg)@ == old(cfg)@,
            },
    {
        let b = line.as_bytes();
        if self.mode != AssuanMode::NoPrompt {
            return Ok(None);
        }
        let (s, e) = match first_word(b) {
            Some(p) => p,
            None => {
                return Ok(None);
            },
        };
        let n = b.len();
        let k = e - s;
        let cmd = classify(b, s, e);
        proof {
            encode_utf8_valid_utf8(line@);
            is_char_boundary_start_end_of_seq(b@);
        }
        match cmd {
            Command::SetTitle | Command::SetPrompt | Command::SetDesc | Command::SetError => {
                let args = str_slice(line, k, n);
                let f = match cmd {
                    Command::SetTitle => LabelField::Title,
                    Command::SetPrompt => LabelField::Prompt,
                    Command::SetDesc => LabelField::Description,
                    _ => LabelField::ErrMessage,
                };
                match self.set_label(cfg, args, f) {
                    Ok(()) => Ok(None),
                    Err(e) => Err(e),
                }
            },
            Command::SetOk | Command::SetNotOk | Command::SetCancel => {
                let args = if k < n && line.is_char_boundary(k + 1) {
                    str_slice(line, k + 1, n)
                } else {
                    proof {
                        if k >= n {
                            lemma_past_end(b@, k + 1);
                        }
                        reveal_strlit("");
                    }
                    ""
                };
                let f = match cmd {
                    Command::SetOk => LabelField::OkButton,
                    Command::SetNotOk => LabelField::NotOkButton,
                    _ => LabelField::CancelButton,
                };
                match self.set_label(cfg, args, f) {
                    Ok(()) => Ok(None),
                    Err(e) => Err(e),
                }
            },
            Command::GetPin => {
                if cfg.labels.ok.is_none() && self.default_ok.is_some() {
                    cfg.labels.ok = self.default_ok.take();
                }
                if cfg.labels.cancel.is_none() && self.default_cancel.is_some() {
                    cfg.labels.cancel = self.default_cancel.take();
                }
                self.mode = AssuanMode::GetPin;
                Ok(Some(InterfaceMode::GetPin))
            },
            Command::Confirm => {
                if cfg.labels.ok.is_none() && self.default_yes.is_some() {
                    cfg.labels.ok = self.default_yes.take();
                }
                if cfg.labels.cancel.is_none() && self.default_no.is_some() {
                    cfg.labels.cancel = self.default_no.take();
                }
                self.mode = AssuanMode::Confirm;
                Ok(Some(InterfaceMode::Message))
            },
            Command::Message => {
                if cfg.labels.title.is_none() && cfg.labels.description.is_none()
                    && cfg.labels.err_message.is_none() {
                    self.reply("OK\n");
                    Ok(None)
                } else {
                    self.mode = AssuanMode::Message;
                    Ok(Some(InterfaceMode::Message))
                }
            },
            Command::GetInfo => {
                self.get_info(line);
                Ok(None)
            },
            Command::Bye => {
                self.reply("OK\n");
                self.is_running = false;
                Ok(None)
            },
            Command::SetOption => {
                match self.handle_option(cfg, line) {
                    Ok(()) => {},
                    Err(e) => {
                        return Err(e);
                    },
                }
                self.reply("OK\n");
                Ok(None)
            },
            Command::Reset => {
                cfg.reset();
                self.reply("OK\n");
                Ok(None)
            },
            Command::Nop | Command::SetKeyInfo => {
                self.reply("OK\n");
                Ok(None)
            },
            Command::Help => {
                self.reply(
                    "# NOP\n# SETTITLE\n# SETPROMPT\n# SETDESC\n# SETERROR\n# GETPIN\n# BYE\n# OPTION\n# RESET\nOK\n",
                );
                Ok(None)
            },
            Command::NotImplemented => {
                self.reply("ERR 536870981 Not implemented\n");
                Ok(None)
            },
            Command::Unknown => {
                self.reply("ERR 536871187 Unknown IPC command\n");
                Ok(None)
            },
        }
    }

    /// `GETINFO`: the data lines for `flavor`, `version` or `pid`, then OK.
    fn get_info(&mut self, line: &str)
        ensures
            final(self)@ == written(
                old(self)@,
                getinfo_text(upper_seq(second_word(line.spec_bytes())), old(self)@.pid) + ok_reply(),
            ),
    {
        let b = line.as_bytes();
        let (s2, e2) = second_word_bounds(b);
        let ghost w0 = self@.writer;
        if upper_eq(b, s2, e2, "FLAVOR".as_bytes()) {
            self.reply("D wayprompt\nEND\n");
        } else if upper_eq(b, s2, e2, "VERSION".as_bytes()) {
            self.reply("D 0.0.0\nEND\n");
        } else if upper_eq(b, s2, e2, "PID".as_bytes()) {
            self.reply("D ");
            push_decimal(&mut self.writer, self.pid as u64);
            self.reply("\nEND\n");
        } else {
            assert(self@.writer =~= w0 + Seq::<u8>::empty());
        }
        self.reply("OK\n");
        proof {
            assert(self@.writer =~= w0 + (getinfo_text(upper_seq(second_word(b@)), self@.pid)
                + ok_reply()));
        }
    }
}

impl AssuanRepl {
    /// Whether [`AssuanRepl::handle_line`] is defined on `line` in the
    /// current mode ([`line_defined`]).
    pub fn accepts_line(&self, line: &str) -> (r: bool)
        ensures
            r == line_defined(self@.mode, line.spec_bytes()),
    {
        if self.mode != AssuanMode::NoPrompt {
            return true;
        }
        let b = line.as_bytes();
        let (s, e) = match first_word(b) {
            Some(p) => p,
            None => {
                return true;
            },
        };
        let k = e - s;
        proof {
            encode_utf8_valid_utf8(line@);
        }
        match classify(b, s, e) {
            Command::SetTitle | Command::SetPrompt | Command::SetDesc | Command::SetError => {
                line.is_char_boundary(k)
            },
            _ => true,
        }
    }

    /// Answers a frontend event and ends the prompt as [`spec_event`]
    /// states. Returns whether the secret buffer has to be reset, which is
    /// every event but `NoEvent`.
    pub fn handle_frontend_event(&mut self, cfg: &mut Config, secret: Option<&[u8]>, event: Event) -> (reset:
        bool)
        ensures
            reset == (event != Event::NoEvent),
            (final(self)@, final(cfg)@) == spec_event(old(self)@, old(cfg)@, opt_bytes(secret), event),
    {
        match event {
            Event::NoEvent => {
                return false;
            },
            Event::UserAbort => self.reply("ERR 83886179 Operation cancelled\n"),
            Event::UserNotOk => self.reply("ERR 83886194 not confirmed\n"),
            Event::UserOk => {
                if self.mode == AssuanMode::GetPin {
                    dump_pin(&mut self.writer, secret);
                } else {
                    self.reply("OK\n");
                }
            },
        }
        if self.mode == AssuanMode::GetPin || self.mode == AssuanMode::Confirm {
            cfg.labels.err_message = None;
        }
        self.mode = AssuanMode::NoPrompt;
        true
    }
}

proof fn lemma_plain_decode(b: Seq<u8>, strip: bool)
    requires
        count_byte(b, 0x25) == 0,
        strip ==> count_byte(b, 0x5f) == 0,
    ensures
        percent_decode(b, strip) == Some(b),
    decreases b.len(),
{
    if b.len() > 0 {
        lemma_plain_decode(b.drop_first(), strip);
        assert(seq![b[0]] + b.drop_first() =~= b);
    }
}

/// Text without percent escapes (and, when hotkeys are stripped, without
/// underscores) decodes to itself.
pub proof fn law_decode_plain_text(b: Seq<u8>, strip: bool)
    requires
        valid_utf8(b),
        count_byte(b, 0x25) == 0,
        strip ==> count_byte(b, 0x5f) == 0,
    ensures
        spec_decode(b, strip) == Some(decode_utf8(b)),
{
    lemma_plain_decode(b, strip);
}

/// While a prompt is active every input line is dropped: nothing is
/// written and nothing changes.
pub proof fn law_lines_dropped_during_prompt(r: ReplView, c: ConfigView, b: Seq<u8>)
    requires
        r.mode != AssuanMode::NoPrompt,
    ensures
        spec_line(r, c, b) == LineOutcome::Handled(r, c, None),
{
}

proof fn lemma_option_keeps(r: ReplView, c: ConfigView, b: Seq<u8>)
    ensures
        option_effect(r, c, b) matches Some((r2, _)) ==> r2.mode == r.mode && r2.writer
            == r.writer && r2.is_running == r.is_running && r2.pid == r.pid,
{
}

proof fn lemma_written_prefix(r: ReplView, t: Seq<u8>)
    ensures
        written(r, t).writer.subrange(0, r.writer.len() as int) == r.writer,
        written(r, t).writer.len() >= r.writer.len(),
{
    assert(written(r, t).writer.subrange(0, r.writer.len() as int) =~= r.writer);
}

/// Replies are only ever appended: handling a line keeps every byte
/// already written, and never changes the reported process id.
pub proof fn law_output_append_only(r: ReplView, c: ConfigView, b: Seq<u8>)
    ensures
        spec_line(r, c, b) matches LineOutcome::Handled(r2, _, _) ==> r2.writer.len()
            >= r.writer.len() && r2.writer.subrange(0, r.writer.len() as int) == r.writer && r2.pid
            == r.pid,
{
    assert(r.writer.subrange(0, r.writer.len() as int) =~= r.writer);
    lemma_written_prefix(r, ok_reply());
    lemma_written_prefix(r, help_text());
    lemma_written_prefix(r, getinfo_text(upper_seq(second_word(b)), r.pid) + ok_reply());
    lemma_written_prefix(r, "ERR 536870981 Not implemented\n".spec_bytes());
    lemma_written_prefix(r, "ERR 536871187 Unknown IPC command\n".spec_bytes());
    if let Some((r2, _)) = option_effect(r, c, b) {
        lemma_written_prefix(r2, ok_reply());
    }
}

/// Only `BYE` stops the protocol loop.
pub proof fn law_only_bye_stops(r: ReplView, c: ConfigView, b: Seq<u8>)
    requires
        r.is_running,
    ensures
        spec_line(r, c, b) matches LineOutcome::Handled(r2, _, _) ==> (!r2.is_running
            <==> r.mode == AssuanMode::NoPrompt && line_command(b) == Some(Command::Bye)),
{
}

/// One call on the protocol: an input line, or the answer to a frontend
/// event with the secret entered so far.
pub enum Step {
    Line(Seq<u8>),
    Answer(Option<Seq<u8>>, Event),
}

/// The protocol state and configuration after one call: a line changes
/// them as [`spec_line`] states (a malformed one changes nothing), an
/// answer as [`spec_event`] states.
pub open spec fn spec_step(r: ReplView, c: ConfigView, s: Step) -> (ReplView, ConfigView) {
    match s {
        Step::Line(b) => match spec_line(r, c, b) {
            LineOutcome::Handled(r2, c2, _) => (r2, c2),
            LineOutcome::Malformed => (r, c),
        },
        Step::Answer(secret, e) => spec_event(r, c, secret, e),
    }
}

/// The protocol state and configuration after a sequence of calls.
pub open spec fn spec_run(r: ReplView, c: ConfigView, steps: Seq<Step>) -> (ReplView, ConfigView)
    decreases steps.len(),
{
    if steps.len() == 0 {
        (r, c)
    } else {
        let (r2, c2) = spec_step(r, c, steps[0]);
        spec_run(r2, c2, steps.drop_first())
    }
}

/// Whether one of the calls is a `BYE` line given while no prompt is
/// active.
pub open spec fn bye_given(r: ReplView, c: ConfigView, steps: Seq<Step>) -> bool
    decreases steps.len(),
{
    if steps.len() == 0 {
        false
    } else {
        let (r2, c2) = spec_step(r, c, steps[0]);
        (steps[0] matches Step::Line(b) && r.mode == AssuanMode::NoPrompt && line_command(b)
            == Some(Command::Bye)) || bye_given(r2, c2, steps.drop_first())
    }
}

/// Over any sequence of calls, the protocol loop keeps running exactly
/// when it ran before and no `BYE` was given while no prompt was active;
/// frontend answers never stop it.
pub proof fn law_runs_until_bye(r: ReplView, c: ConfigView, steps: Seq<Step>)
    ensures
        spec_run(r, c, steps).0.is_running == (r.is_running && !bye_given(r, c, steps)),
    decreases steps.len(),
{
    if steps.len() > 0 {
        let (r2, c2) = spec_step(r, c, steps[0]);
        match steps[0] {
            Step::Line(b) => {
                if r.is_running {
                    law_only_bye_stops(r, c, b);
                }
            },
            Step::Answer(_, _) => {},
        }
        law_runs_until_bye(r2, c2, steps.drop_first());
    }
}

/// `GETPIN`, `CONFIRM` and a `MESSAGE` with something to display, given
/// while no prompt is active, need a frontend.
pub open spec fn needs_frontend(r: ReplView, c: ConfigView, b: Seq<u8>) -> bool {
    r.mode == AssuanMode::NoPrompt && match line_command(b) {
        Some(Command::GetPin) | Some(Command::Confirm) => true,
        Some(Command::Message) => c.labels.title is Some || c.labels.description is Some
            || c.labels.err_message is Some,
        _ => false,
    }
}

/// A line asks the frontend for a mode exactly when it needs a frontend:
/// for the PIN mode when it is `GETPIN`, for the message mode otherwise;
/// a line that needs none never reaches the frontend.
pub proof fn law_frontend_exactly_when_needed(r: ReplView, c: ConfigView, b: Seq<u8>)
    ensures
        spec_line(r, c, b) matches LineOutcome::Handled(_, _, m) && (m is Some <==> needs_frontend(
            r,
            c,
            b,
        )) && (m == Some(InterfaceMode::GetPin) <==> needs_frontend(r, c, b) && line_command(b)
            == Some(Command::GetPin)) && (m is Some && m != Some(InterfaceMode::GetPin) ==> m
            == Some(InterfaceMode::Message)) || spec_line(r, c, b) is Malformed && !needs_frontend(
            r,
            c,
            b,
        ),
{
}

/// Where the command word of line `b` ends (0 when there is none).
pub open spec fn cmd_end(b: Seq<u8>) -> int {
    match first_token(b) {
        Some((_, e)) => e,
        None => 0,
    }
}

/// Whether `b2` is line `b1` with only the ASCII letter case of bytes of
/// its command word changed.
pub open spec fn recased_command(b1: Seq<u8>, b2: Seq<u8>) -> bool {
    match first_token(b1) {
        Some((s, e)) => b1.len() == b2.len() && forall|i: int|
            #![trigger b2[i]]
            0 <= i < b1.len() ==> b1[i] == b2[i] || (s <= i < e && upper(b1[i]) == upper(b2[i])),
        None => false,
    }
}

/// Whether `b1` and `b2` differ only before byte `k`.
pub open spec fn differs_before(b1: Seq<u8>, b2: Seq<u8>, k: int) -> bool {
    forall|i: int| #![trigger b2[i]] 0 <= i < b1.len() && b1[i] != b2[i] ==> i < k
}

/// Whether the `OPTION` line `b1`, when it names option `opt`, differs
/// from `b2` only before the option's value is cut.
pub open spec fn option_spared(b1: Seq<u8>, b2: Seq<u8>, opt: Seq<u8>) -> bool {
    starts(second_word(b1), opt) ==> differs_before(b1, b2, 7 + opt.len() as int)
}

/// Whether a change of `b1` into `b2` leaves the argument of the command
/// alone: commands that cut their argument from a fixed byte offset of the
/// line (the label commands and `OPTION`) must differ only before that
/// offset. When the command word is preceded by whitespace, the offset can
/// fall inside the command word.
pub open spec fn recase_spares_argument(b1: Seq<u8>, b2: Seq<u8>) -> bool {
    match line_command(b1) {
        Some(Command::SetTitle) | Some(Command::SetPrompt) | Some(Command::SetDesc) | Some(
            Command::SetError,
        ) => differs_before(b1, b2, cmd_len(b1)),
        Some(Command::SetOk) | Some(Command::SetNotOk) | Some(Command::SetCancel) => differs_before(
            b1,
            b2,
            cmd_len(b1) + 1,
        ),
        Some(Command::SetOption) => option_spared(b1, b2, "putenv=WAYLAND_DISPLAY=".spec_bytes())
            && option_spared(b1, b2, "ttyname=".spec_bytes()) && option_spared(
            b1,
            b2,
            "default-ok=".spec_bytes(),
        ) && option_spared(b1, b2, "default-cancel=".spec_bytes()) && option_spared(
            b1,
            b2,
            "default-yes=".spec_bytes(),
        ) && option_spared(b1, b2, "default-no=".spec_bytes()),
        _ => true,
    }
}

proof fn lemma_recased_ws(b1: Seq<u8>, b2: Seq<u8>, lo: int, hi: int)
    requires
        b1.len() == b2.len(),
        forall|i: int|
            #![trigger b2[i]]
            0 <= i < b1.len() ==> b1[i] == b2[i] || (lo <= i < hi && upper(b1[i]) == upper(b2[i])),
    ensures
        forall|i: int| #[trigger] ws_len(b1, i) == ws_len(b2, i),
{
    assert forall|i: int| #[trigger] ws_len(b1, i) == ws_len(b2, i) by {
        if 0 <= i < b1.len() {
            let _ = b2[i];
            if i + 1 < b1.len() {
                let _ = b2[i + 1];
            }
            if i + 2 < b1.len() {
                let _ = b2[i + 2];
            }
        }
    }
}

proof fn lemma_same_ws_tokens(b1: Seq<u8>, b2: Seq<u8>, i: int)
    requires
        b1.len() == b2.len(),
        forall|j: int| #[trigger] ws_len(b1, j) == ws_len(b2, j),
    ensures
        skip_ws(b1, i) == skip_ws(b2, i),
        token_end(b1, i) == token_end(b2, i),
    decreases b1.len() - i,
{
    if 0 <= i < b1.len() {
        if ws_len(b1, i) > 0 {
            lemma_same_ws_tokens(b1, b2, i + ws_len(b1, i));
        } else {
            lemma_same_ws_tokens(b1, b2, i + 1);
        }
    }
}

proof fn lemma_recased_tokens(b1: Seq<u8>, b2: Seq<u8>)
    requires
        valid_utf8(b1),
        recased_command(b1, b2),
    ensures
        first_token(b1) == first_token(b2),
        second_token(b1) == second_token(b2),
        first_token(b1) matches Some((s, e)) && 0 <= s <= e <= b1.len() && s == skip_ws(b1, 0)
            && forall|i: int|
            #![trigger b2[i]]
            0 <= i < b1.len() && !(s <= i < e) ==> b1[i] == b2[i],
        second_token(b1) matches Some((s2, t2)) ==> cmd_end(b1) <= s2 <= t2 <= b1.len(),
{
    let (s, e) = first_token(b1)->0;
    lemma_skip_ws_nc(b1, 0);
    lemma_token_end_nc(b1, s);
    lemma_skip_ws_nc(b1, e);
    lemma_token_end_nc(b1, skip_ws(b1, e));
    lemma_recased_ws(b1, b2, s, e);
    lemma_same_ws_tokens(b1, b2, 0);
    lemma_same_ws_tokens(b1, b2, s);
    lemma_same_ws_tokens(b1, b2, e);
    lemma_same_ws_tokens(b1, b2, skip_ws(b1, e));
    assert forall|i: int| #![trigger b2[i]] 0 <= i < b1.len() && !(s <= i < e) implies b1[i]
        == b2[i] by {
        let _ = b2[i];
    }
}

proof fn lemma_recased_command(b1: Seq<u8>, b2: Seq<u8>)
    requires
        valid_utf8(b1),
        recased_command(b1, b2),
    ensures
        line_command(b1) == line_command(b2),
        cmd_len(b1) == cmd_len(b2),
{
    lemma_recased_tokens(b1, b2);
    let (s, e) = first_token(b1)->0;
    assert(upper_seq(b1.subrange(s, e)) =~= upper_seq(b2.subrange(s, e))) by {
        assert forall|i: int| 0 <= i < e - s implies upper(b1.subrange(s, e)[i]) == upper(
            b2.subrange(s, e)[i],
        ) by {
            let _ = b2[s + i];
        }
    }
}

proof fn lemma_recased_boundary(b1: Seq<u8>, b2: Seq<u8>, k: int)
    requires
        valid_utf8(b1),
        valid_utf8(b2),
        recased_command(b1, b2),
    ensures
        is_char_boundary(b1, k) == is_char_boundary(b2, k),
{
    if 0 <= k < b1.len() {
        let _ = b2[k];
        assert(is_char_boundary(b1, k) <==> !is_continuation_byte(b1[k]));
        assert(is_char_boundary(b2, k) <==> !is_continuation_byte(b2[k]));
    } else if k == b1.len() {
        is_char_boundary_start_end_of_seq(b1);
        is_char_boundary_start_end_of_seq(b2);
    } else if k > b1.len() {
        lemma_past_end(b1, k);
        lemma_past_end(b2, k);
    }
}

proof fn lemma_recased_suffix(b1: Seq<u8>, b2: Seq<u8>, k: int)
    requires
        valid_utf8(b1),
        valid_utf8(b2),
        recased_command(b1, b2),
        differs_before(b1, b2, k),
    ensures
        suffix_at(b1, k) == suffix_at(b2, k),
        suffix_or_empty(b1, k) == suffix_or_empty(b2, k),
{
    lemma_recased_boundary(b1, b2, k);
    if 0 <= k <= b1.len() {
        assert(b1.subrange(k, b1.len() as int) =~= b2.subrange(k, b2.len() as int)) by {
            assert forall|i: int| 0 <= i < b1.len() - k implies b1.subrange(k, b1.len() as int)[i]
                == b2.subrange(k, b2.len() as int)[i] by {
                let _ = b2[k + i];
            }
        }
    }
}

proof fn lemma_recased_option_value(b1: Seq<u8>, b2: Seq<u8>, opt: Seq<u8>)
    requires
        valid_utf8(b1),
        valid_utf8(b2),
        recased_command(b1, b2),
        option_spared(b1, b2, opt),
    ensures
        option_value(b1, opt) == option_value(b2, opt),
{
    lemma_recased_second_word(b1, b2);
    if starts(second_word(b1), opt) {
        lemma_recased_suffix(b1, b2, 7 + opt.len() as int);
    }
}

proof fn lemma_recased_second_word(b1: Seq<u8>, b2: Seq<u8>)
    requires
        valid_utf8(b1),
        recased_command(b1, b2),
    ensures
        second_word(b1) == second_word(b2),
{
    lemma_recased_tokens(b1, b2);
    if second_token(b1) is Some {
        let (s2, t2) = second_token(b1)->0;
        assert(b1.subrange(s2, t2) =~= b2.subrange(s2, t2)) by {
            assert forall|i: int| 0 <= i < t2 - s2 implies b1.subrange(s2, t2)[i]
                == b2.subrange(s2, t2)[i] by {
                let _ = b2[s2 + i];
            }
        }
    }
}

/// The letter case of the command word does not change what a line does:
/// `b2`, which differs from `b1` only in the ASCII case of command-word
/// letters, has the same command and is handled in the same way, unless
/// the command cuts its argument from a byte offset that falls on a
/// recased letter ([`recase_spares_argument`]).
pub proof fn law_command_case_ignored(r: ReplView, c: ConfigView, b1: Seq<u8>, b2: Seq<u8>)
    requires
        valid_utf8(b1),
        valid_utf8(b2),
        recased_command(b1, b2),
        recase_spares_argument(b1, b2),
    ensures
        line_command(b1) == line_command(b2),
        line_defined(r.mode, b1) == line_defined(r.mode, b2),
        spec_line(r, c, b1) == spec_line(r, c, b2),
{
    lemma_recased_tokens(b1, b2);
    lemma_recased_command(b1, b2);
    lemma_recased_second_word(b1, b2);
    let k = cmd_len(b1);
    lemma_recased_boundary(b1, b2, k);
    if r.mode == AssuanMode::NoPrompt {
        match line_command(b1) {
            Some(Command::SetTitle) | Some(Command::SetPrompt) | Some(Command::SetDesc) | Some(
                Command::SetError,
            ) => {
                lemma_recased_suffix(b1, b2, k);
                assert(b1.subrange(k, b1.len() as int) == b2.subrange(k, b2.len() as int));
            },
            Some(Command::SetOk) | Some(Command::SetNotOk) | Some(Command::SetCancel) => {
                lemma_recased_suffix(b1, b2, k + 1);
            },
            Some(Command::SetOption) => {
                lemma_recased_options(r, c, b1, b2);
            },
            _ => {},
        }
    }
}

proof fn lemma_recased_options(r: ReplView, c: ConfigView, b1: Seq<u8>, b2: Seq<u8>)
    requires
        valid_utf8(b1),
        valid_utf8(b2),
        recased_command(b1, b2),
        line_command(b1) == Some(Command::SetOption),
        recase_spares_argument(b1, b2),
    ensures
        option_effect(r, c, b1) == option_effect(r, c, b2),
{
    lemma_recased_option_value(b1, b2, "putenv=WAYLAND_DISPLAY=".spec_bytes());
    lemma_recased_option_value(b1, b2, "ttyname=".spec_bytes());
    lemma_recased_option_value(b1, b2, "default-ok=".spec_bytes());
    lemma_recased_option_value(b1, b2, "default-cancel=".spec_bytes());
    lemma_recased_option_value(b1, b2, "default-yes=".spec_bytes());
    lemma_recased_option_value(b1, b2, "default-no=".spec_bytes());
}

/// The bytes of line `b` after its command word.
pub open spec fn text_after_command(b: Seq<u8>) -> Seq<u8> {
    b.subrange(cmd_len(b), b.len() as int)
}

/// The bytes of line `b` after its command word and one separator byte
/// (nothing when that position is no character boundary).
pub open spec fn text_after_separator(b: Seq<u8>) -> Seq<u8> {
    suffix_or_empty(b, cmd_len(b) + 1)
}

/// Each label command writes exactly its own label: with no prompt
/// active, `SETTITLE`, `SETPROMPT`, `SETDESC` and `SETERROR` store the
/// decoded text after the command word, and `SETOK`, `SETNOTOK` and
/// `SETCANCEL` the decoded text after one more byte, in the title, prompt,
/// description, error message, OK, not-OK and cancel label respectively;
/// every other label and the rest of the configuration stay as they were,
/// and the reply is `OK`.
pub proof fn law_label_commands_write_own_label(r: ReplView, c: ConfigView, b: Seq<u8>)
    requires
        r.mode == AssuanMode::NoPrompt,
    ensures
        spec_decode(text_after_command(b), false) matches Some(t) ==> (line_command(b) == Some(Command::SetTitle)
            ==> spec_line(r, c, b) == LineOutcome::Handled(
            written(r, "OK\n".spec_bytes()),
            ConfigView { labels: LabelsView { title: Some(t), ..c.labels }, ..c },
            None,
        )),
        spec_decode(text_after_command(b), false) matches Some(t) ==> (line_command(b) == Some(Command::SetPrompt)
            ==> spec_line(r, c, b) == LineOutcome::Handled(
            written(r, "OK\n".spec_bytes()),
            ConfigView { labels: LabelsView { prompt: Some(t), ..c.labels }, ..c },
            None,
        )),
        spec_decode(text_after_command(b), false) matches Some(t) ==> (line_command(b) == Some(Command::SetDesc)
            ==> spec_line(r, c, b) == LineOutcome::Handled(
            written(r, "OK\n".spec_bytes()),
            ConfigView { labels: LabelsView { description: Some(t), ..c.labels }, ..c },
            None,
        )),
        spec_decode(text_after_command(b), false) matches Some(t) ==> (line_command(b) == Some(Command::SetError)
            ==> spec_line(r, c, b) == LineOutcome::Handled(
            written(r, "OK\n".spec_bytes()),
            ConfigView { labels: LabelsView { err_message: Some(t), ..c.labels }, ..c },
            None,
        )),
        spec_decode(text_after_separator(b), false) matches Some(t) ==> (line_command(b) == Some(Command::SetOk)
            ==> spec_line(r, c, b) == LineOutcome::Handled(
            written(r, "OK\n".spec_bytes()),
            ConfigView { labels: LabelsView { ok: Some(t), ..c.labels }, ..c },
            None,
        )),
        spec_decode(text_after_separator(b), false) matches Some(t) ==> (line_command(b) == Some(Command::SetNotOk)
            ==> spec_line(r, c, b) == LineOutcome::Handled(
            written(r, "OK\n".spec_bytes()),
            ConfigView { labels: LabelsView { not_ok: Some(t), ..c.labels }, ..c },
            None,
        )),
        spec_decode(text_after_separator(b), false) matches Some(t) ==> (line_command(b) == Some(Command::SetCancel)
            ==> spec_line(r, c, b) == LineOutcome::Handled(
            written(r, "OK\n".spec_bytes()),
            ConfigView { labels: LabelsView { cancel: Some(t), ..c.labels }, ..c },
            None,
        )),
{
}

/// A prompt is entered only from no prompt, by `GETPIN`, `CONFIRM` or a
/// `MESSAGE` with something to display, and exactly when the frontend is
/// asked for a mode; the frontend is asked for the PIN mode exactly when
/// the PIN prompt starts.
#[verifier::rlimit(40)]
pub proof fn law_prompt_entry(r: ReplView, c: ConfigView, b: Seq<u8>)
    ensures
        spec_line(r, c, b) matches LineOutcome::Handled(r2, _, m) ==> (m is Some ==> r.mode
            == AssuanMode::NoPrompt && r2.mode != AssuanMode::NoPrompt && (line_command(b) == Some(
            Command::GetPin) || line_command(b) == Some(Command::Confirm) || line_command(b)
            == Some(Command::Message))) && (r.mode == AssuanMode::NoPrompt && m is None ==> r2.mode
            == AssuanMode::NoPrompt) && (m == Some(InterfaceMode::GetPin) <==> r.mode
            == AssuanMode::NoPrompt && r2.mode == AssuanMode::GetPin),
{
    lemma_option_keeps(r, c, b);
    if r.mode == AssuanMode::NoPrompt {
        match line_command(b) {
            Some(Command::GetPin) => {},
            Some(Command::Confirm) => {},
            Some(Command::Message) => {},
            Some(Command::SetTitle) | Some(Command::SetPrompt) | Some(Command::SetDesc) | Some(
                Command::SetError,
            ) | Some(Command::SetOk) | Some(Command::SetNotOk) | Some(Command::SetCancel) => {
                assert(spec_line(r, c, b) matches LineOutcome::Handled(r2, _, m) ==> r2.mode
                    == r.mode && m is None);
            },
            _ => {},
        }
    }
}

/// `RESET` clears every label, keeps the rest of the configuration and
/// replies OK.
pub proof fn law_reset_clears_labels(r: ReplView, c: ConfigView, b: Seq<u8>)
    requires
        r.mode == AssuanMode::NoPrompt,
        line_command(b) == Some(Command::Reset),
    ensures
        spec_line(r, c, b) == LineOutcome::Handled(
            written(r, ok_reply()),
            ConfigView { labels: empty_labels(), ..c },
            None,
        ),
{
}

/// Every frontend event but `NoEvent` ends the prompt and appends its
/// reply; after a PIN or confirm prompt the error message is cleared, and
/// nothing but the error message changes in the configuration.
pub proof fn law_event_ends_prompt(r: ReplView, c: ConfigView, secret: Option<Seq<u8>>, e: Event)
    requires
        e != Event::NoEvent,
    ensures
        spec_event(r, c, secret, e).0.mode == AssuanMode::NoPrompt,
        spec_event(r, c, secret, e).0.writer == r.writer + event_reply(r.mode, secret, e),
        (r.mode == AssuanMode::GetPin || r.mode == AssuanMode::Confirm) ==> spec_event(
            r,
            c,
            secret,
            e,
        ).1.labels.err_message is None,
        spec_event(r, c, secret, e).1 == (ConfigView {
            labels: LabelsView {
                err_message: spec_event(r, c, secret, e).1.labels.err_message,
                ..c.labels
            },
            ..c
        }),
{
}

/// The percent escape of byte `v`: `%` and its two lower-case hex digits.
pub open spec fn percent_escape(v: u8) -> Seq<u8> {
    seq![
        0x25u8,
        crate::text::hex_digit_lower((v / 16) as nat),
        crate::text::hex_digit_lower((v % 16) as nat)
    ]
}

/// Percent-escaping any byte and decoding the escape gives the byte back,
/// whether or not hotkeys are stripped.
pub proof fn law_percent_escape_round_trip(v: u8, strip: bool)
    ensures
        percent_decode(percent_escape(v), strip) == Some(seq![v]),
{
    let e = percent_escape(v);
    let pair = e.subrange(1, 3);
    let hi = (v / 16) as nat;
    let lo = (v % 16) as nat;
    assert(crate::config::digit_value(crate::text::hex_digit_lower(hi), 16) == Some(hi));
    assert(crate::config::digit_value(crate::text::hex_digit_lower(lo), 16) == Some(lo));
    let one = pair.drop_last();
    assert(one =~= seq![crate::text::hex_digit_lower(hi)]);
    assert(one.last() == crate::text::hex_digit_lower(hi));
    assert(one.drop_last() =~= Seq::<u8>::empty());
    assert(crate::config::digits_value(one.drop_last(), 16) == Some(0nat));
    assert(crate::config::digits_value(one, 16) == Some(hi));
    assert(pair.last() == crate::text::hex_digit_lower(lo));
    assert(crate::config::digits_value(pair, 16) == Some(hi * 16 + lo));
    assert(hi * 16 + lo == v);
    assert(pair[0] != 0x2b);
    assert(crate::config::parse_unsigned(pair, 16, 255) == Some(v as nat));
    assert(e.subrange(3, e.len() as int) =~= Seq::<u8>::empty());
    assert(percent_decode(e.subrange(3, e.len() as int), strip) == Some(Seq::<u8>::empty()));
    assert(seq![v] + Seq::<u8>::empty() =~= seq![v]);
}

/// A PIN request answered by the user: `GETPIN` from no prompt starts the
/// PIN prompt, writing nothing; accepting it writes exactly the PIN reply,
/// ends the prompt and clears the error message.
pub proof fn law_getpin_round_trip(r: ReplView, c: ConfigView, b: Seq<u8>, p: Option<Seq<u8>>)
    requires
        r.mode == AssuanMode::NoPrompt,
        line_command(b) == Some(Command::GetPin),
    ensures
        spec_line(r, c, b) matches LineOutcome::Handled(r2, c2, m) && m == Some(InterfaceMode::GetPin)
            && r2.writer == r.writer && spec_event(r2, c2, p, Event::UserOk).0.writer == r.writer
            + pin_reply(p) && spec_event(r2, c2, p, Event::UserOk).0.mode == AssuanMode::NoPrompt
            && spec_event(r2, c2, p, Event::UserOk).1.labels.err_message is None,
{
}

/// A confirmation refused by the user: `CONFIRM` from no prompt starts the
/// message prompt; answering "not OK" writes exactly the refusal and ends
/// the prompt.
pub proof fn law_confirm_refused(r: ReplView, c: ConfigView, b: Seq<u8>, p: Option<Seq<u8>>)
    requires
        r.mode == AssuanMode::NoPrompt,
        line_command(b) == Some(Command::Confirm),
    ensures
        spec_line(r, c, b) matches LineOutcome::Handled(r2, c2, m) && m == Some(InterfaceMode::Message)
            && spec_event(r2, c2, p, Event::UserNotOk).0.writer == r.writer
            + "ERR 83886194 not confirmed\n".spec_bytes() && spec_event(
            r2,
            c2,
            p,
            Event::UserNotOk,
        ).0.mode == AssuanMode::NoPrompt,
{
}

} // verus!
