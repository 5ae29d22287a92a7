//! Terminal fallback frontend logic: raw input tokenising, the key handling
//! decisions, mode transitions, and the ANSI screen layout.
use vstd::prelude::*;
use vstd::string::StrSliceExecFns;
use vstd::string::StringSliceAdditionalSpecFns;
use vstd::utf8::*;

use crate::config::{Labels, LabelsView};
use crate::frontend::{Event, FrontendError, InterfaceMode};
use crate::text::{
    decimal, find_byte, find_first, lemma_find_from, push_bytes, push_decimal, push_str, utf8_str,
};

verus! {

broadcast use vstd::utf8::group_utf8_lib;

/// A single parsed input token from the terminal byte stream.
#[derive(Debug, Clone, Copy, PartialEq, Eq, Structural)]
pub enum TtyInput {
    Enter,
    Escape,
    Backspace,
    /// Ctrl-C
    Cc,
    /// Ctrl-U (kill line)
    Cu,
    /// Ctrl-W (kill word)
    Cw,
    /// Ctrl-Backspace (0x08)
    CBackspace,
    /// A decoded Unicode code point.
    Codepoint(char),
    /// Unrecognized escape sequence or invalid UTF-8.
    Unknown,
}

/// The encoded length announced by a UTF-8 lead byte, 0 for a continuation
/// or invalid byte.
pub open spec fn seq_len_of(lead: u8) -> int {
    if lead < 0x80 {
        1
    } else if 0xc0 <= lead && lead <= 0xdf {
        2
    } else if 0xe0 <= lead && lead <= 0xef {
        3
    } else if 0xf0 <= lead && lead <= 0xf7 {
        4
    } else {
        0
    }
}

/// Returns the expected byte length of a UTF-8 sequence given its lead
/// byte, or 0 for continuation/invalid bytes.
pub fn utf8_seq_len(lead: u8) -> (n: usize)
    ensures
        n as int == seq_len_of(lead),
{
    if lead < 0x80 {
        1
    } else if lead >> 5u8 == 0b110u8 {
        assert(lead >> 5u8 == 0b110u8 <==> 0xc0 <= lead && lead <= 0xdf) by (bit_vector);
        2
    } else if lead >> 4u8 == 0b1110u8 {
        assert(lead >> 5u8 != 0b110u8 ==> (lead >> 4u8 == 0b1110u8 <==> 0xe0 <= lead && lead
            <= 0xef)) by (bit_vector);
        assert(lead >> 5u8 == 0b110u8 <==> 0xc0 <= lead && lead <= 0xdf) by (bit_vector);
        3
    } else if lead >> 3u8 == 0b11110u8 {
        assert(lead >> 3u8 == 0b11110u8 <==> 0xf0 <= lead && lead <= 0xf7) by (bit_vector);
        assert(lead >> 5u8 == 0b110u8 <==> 0xc0 <= lead && lead <= 0xdf) by (bit_vector);
        assert(lead >> 4u8 == 0b1110u8 <==> 0xe0 <= lead && lead <= 0xef) by (bit_vector);
        4
    } else {
        assert(lead >> 3u8 == 0b11110u8 <==> 0xf0 <= lead && lead <= 0xf7) by (bit_vector);
        assert(lead >> 5u8 == 0b110u8 <==> 0xc0 <= lead && lead <= 0xdf) by (bit_vector);
        assert(lead >> 4u8 == 0b1110u8 <==> 0xe0 <= lead && lead <= 0xef) by (bit_vector);
        0
    }
}

/// The end of the parameter and intermediate bytes of a CSI sequence whose
/// body starts at `i`: the first position at or after `i` holding a final
/// byte (0x40..=0x7e), or the end.
pub open spec fn csi_end(b: Seq<u8>, i: int) -> int
    decreases b.len() - i,
{
    if 0 <= i < b.len() && !(0x40 <= b[i] && b[i] <= 0x7e) {
        csi_end(b, i + 1)
    } else {
        i
    }
}

/// The token that starts at `i` (`0 <= i < b.len()`) and the position after
/// it. An escape byte followed by more bytes starts an unknown sequence: a
/// CSI sequence (`ESC [`) runs to its final byte, any other just covers the
/// next byte; a lone trailing escape is `Escape`. Other bytes start a UTF-8
/// sequence of the length its lead byte announces, or are unknown.
pub open spec fn token_at(b: Seq<u8>, i: int) -> (TtyInput, int) {
    let c = b[i];
    if c == 0x0d || c == 0x0a {
        (TtyInput::Enter, i + 1)
    } else if c == 0x1b {
        if i + 1 < b.len() {
            if b[i + 1] == 0x5b {
                let k = csi_end(b, i + 2);
                (TtyInput::Unknown, if k < b.len() {
                    k + 1
                } else {
                    k
                })
            } else {
                (TtyInput::Unknown, i + 2)
            }
        } else {
            (TtyInput::Escape, i + 1)
        }
    } else if c == 0x7f {
        (TtyInput::Backspace, i + 1)
    } else if c == 0x03 {
        (TtyInput::Cc, i + 1)
    } else if c == 0x15 {
        (TtyInput::Cu, i + 1)
    } else if c == 0x17 {
        (TtyInput::Cw, i + 1)
    } else if c == 0x08 {
        (TtyInput::CBackspace, i + 1)
    } else {
        let n = seq_len_of(c);
        if n == 0 || i + n > b.len() {
            (TtyInput::Unknown, i + 1)
        } else if valid_utf8(b.subrange(i, i + n)) {
            (TtyInput::Codepoint(decode_utf8(b.subrange(i, i + n))[0]), i + n)
        } else {
            (TtyInput::Unknown, i + 1)
        }
    }
}

proof fn lemma_csi_end(b: Seq<u8>, i: int)
    requires
        0 <= i,
    ensures
        i <= csi_end(b, i),
        i <= b.len() ==> csi_end(b, i) <= b.len(),
    decreases b.len() - i,
{
    if 0 <= i < b.len() && !(0x40 <= b[i] && b[i] <= 0x7e) {
        lemma_csi_end(b, i + 1);
    }
}

proof fn lemma_token_advances(b: Seq<u8>, i: int)
    requires
        0 <= i < b.len(),
    ensures
        i < token_at(b, i).1 <= b.len(),
{
    if i + 2 <= b.len() {
        lemma_csi_end(b, i + 2);
    }
}

/// The tokens of `b` from position `i` on.
pub open spec fn tokens_from(b: Seq<u8>, i: int) -> Seq<TtyInput>
    decreases b.len() - i,
{
    if 0 <= i < b.len() {
        let (t, j) = token_at(b, i);
        if i < j <= b.len() {
            seq![t] + tokens_from(b, j)
        } else {
            seq![t]
        }
    } else {
        Seq::empty()
    }
}

/// Parses a raw byte buffer into a sequence of [`TtyInput`] tokens.
pub fn parse_input(buf: &[u8]) -> (out: Vec<TtyInput>)
    ensures
        out@ == tokens_from(buf@, 0),
{
    let mut out: Vec<TtyInput> = Vec::new();
    let mut i: usize = 0;
    let n = buf.len();
    while i < n
        invariant
            n == buf@.len(),
            i <= n,
            tokens_from(buf@, 0) == out@ + tokens_from(buf@, i as int),
        decreases n - i,
    {
        proof {
            lemma_token_advances(buf@, i as int);
        }
        let ghost tok = token_at(buf@, i as int);
        let ghost before = out@;
        let c = buf[i];
        if c == 0x0d || c == 0x0a {
            out.push(TtyInput::Enter);
            i = i + 1;
        } else if c == 0x1b {
            if i + 1 < n {
                i = i + 1;
                if buf[i] == 0x5b {
                    i = i + 1;
                    let ghost j0 = i as int;
                    while i < n && !(0x40 <= buf[i] && buf[i] <= 0x7e)
                        invariant
                            i <= n == buf@.len(),
                            j0 <= i,
                            csi_end(buf@, i as int) == csi_end(buf@, j0),
                        decreases n - i,
                    {
                        i = i + 1;
                    }
                    if i < n {
                        i = i + 1;
                    }
                } else {
                    i = i + 1;
                }
                out.push(TtyInput::Unknown);
            } else {
                out.push(TtyInput::Escape);
                i = i + 1;
            }
        } else if c == 0x7f {
            out.push(TtyInput::Backspace);
            i = i + 1;
        } else if c == 0x03 {
            out.push(TtyInput::Cc);
            i = i + 1;
        } else if c == 0x15 {
            out.push(TtyInput::Cu);
            i = i + 1;
        } else if c == 0x17 {
            out.push(TtyInput::Cw);
            i = i + 1;
        } else if c == 0x08 {
            out.push(TtyInput::CBackspace);
            i = i + 1;
        } else {
            let len = utf8_seq_len(c);
            if len == 0 || len > n - i {
                out.push(TtyInput::Unknown);
                i = i + 1;
            } else {
                let chunk = &buf[i..i + len];
                match utf8_str(chunk) {
                    Some(s) => {
                        proof {
                            encode_utf8_decode_utf8(s@);
                            assert(chunk@ =~= buf@.subrange(i as int, i + len));
                        }
                        let ch = s.get_char(0);
                        out.push(TtyInput::Codepoint(ch));
                        i = i + len;
                    },
                    None => {
                        proof {
                            assert(chunk@ =~= buf@.subrange(i as int, i + len));
                        }
                        out.push(TtyInput::Unknown);
                        i = i + 1;
                    },
                }
            }
        }
        proof {
            assert(out@ == before.push(tok.0));
            assert(i == tok.1);
            assert(before.push(tok.0) + tokens_from(buf@, i as int) =~= before + (seq![tok.0]
                + tokens_from(buf@, i as int)));
        }
    }
    proof {
        assert(out@ + Seq::<TtyInput>::empty() =~= out@);
    }
    out
}

/// An edit of the PIN buffer asked for by a key.
#[derive(Debug, Clone, Copy, PartialEq, Eq, Structural)]
pub enum PinEdit {
    /// Clear the whole PIN.
    Reset,
    /// Remove the last character.
    DeleteBack,
    /// Append a character.
    Append(char),
}

/// The effect of the tokens `t` from position `i` on, in prompt mode
/// `mode`: the event that ends the batch (the first Enter, Escape or
/// Ctrl-C; Ctrl-C is "not OK" when that button exists) and the PIN edits
/// asked for before it, in order. Edits are only asked for in the PIN
/// prompt.
pub open spec fn input_effects(t: Seq<TtyInput>, i: int, mode: InterfaceMode, has_not_ok: bool) -> (
    Event,
    Seq<PinEdit>,
)
    decreases t.len() - i,
{
    if i < 0 || i >= t.len() {
        (Event::NoEvent, Seq::empty())
    } else {
        let rest = input_effects(t, i + 1, mode, has_not_ok);
        let pin = mode == InterfaceMode::GetPin;
        match t[i] {
            TtyInput::Enter => (Event::UserOk, Seq::empty()),
            TtyInput::Escape => (Event::UserAbort, Seq::empty()),
            TtyInput::Cc => (
                if has_not_ok {
                    Event::UserNotOk
                } else {
                    Event::UserAbort
                },
                Seq::empty(),
            ),
            TtyInput::Cu | TtyInput::Cw | TtyInput::CBackspace => if pin {
                (rest.0, seq![PinEdit::Reset] + rest.1)
            } else {
                rest
            },
            TtyInput::Backspace => if pin {
                (rest.0, seq![PinEdit::DeleteBack] + rest.1)
            } else {
                rest
            },
            TtyInput::Codepoint(c) => if pin {
                (rest.0, seq![PinEdit::Append(c)] + rest.1)
            } else {
                rest
            },
            TtyInput::Unknown => rest,
        }
    }
}

/// Decides what a batch of input tokens does: the resulting event
/// (`NoEvent` when none ends the prompt) and the PIN edits to apply, in
/// order, each followed by a redraw.
pub fn tty_input_effects(inputs: &[TtyInput], mode: InterfaceMode, has_not_ok: bool) -> (r: (
    Event,
    Vec<PinEdit>,
))
    ensures
        (r.0, r.1@) == input_effects(inputs@, 0, mode, has_not_ok),
{
    let mut edits: Vec<PinEdit> = Vec::new();
    let mut i: usize = 0;
    let pin = mode == InterfaceMode::GetPin;
    while i < inputs.len()
        invariant
            i <= inputs@.len(),
            pin == (mode == InterfaceMode::GetPin),
            input_effects(inputs@, 0, mode, has_not_ok) == (
                input_effects(inputs@, i as int, mode, has_not_ok).0,
                edits@ + input_effects(inputs@, i as int, mode, has_not_ok).1,
            ),
        decreases inputs@.len() - i,
    {
        let ghost before = edits@;
        let ghost rest = input_effects(inputs@, i + 1, mode, has_not_ok);
        match inputs[i] {
            TtyInput::Enter => {
                assert(before + Seq::<PinEdit>::empty() =~= before);
                return (Event::UserOk, edits);
            },
            TtyInput::Escape => {
                assert(before + Seq::<PinEdit>::empty() =~= before);
                return (Event::UserAbort, edits);
            },
            TtyInput::Cc => {
                assert(before + Seq::<PinEdit>::empty() =~= before);
                if has_not_ok {
                    return (Event::UserNotOk, edits);
                } else {
                    return (Event::UserAbort, edits);
                }
            },
            TtyInput::Cu | TtyInput::Cw | TtyInput::CBackspace => {
                if pin {
                    edits.push(PinEdit::Reset);
                    assert(before + (seq![PinEdit::Reset] + rest.1) =~= edits@ + rest.1);
                }
            },
            TtyInput::Backspace => {
                if pin {
                    edits.push(PinEdit::DeleteBack);
                    assert(before + (seq![PinEdit::DeleteBack] + rest.1) =~= edits@ + rest.1);
                }
            },
            TtyInput::Codepoint(c) => {
                if pin {
                    edits.push(PinEdit::Append(c));
                    assert(before + (seq![PinEdit::Append(c)] + rest.1) =~= edits@ + rest.1);
                }
            },
            TtyInput::Unknown => {},
        }
        i = i + 1;
    }
    assert(edits@ + Seq::<PinEdit>::empty() =~= edits@);
    (Event::NoEvent, edits)
}

/// What entering a mode does to the terminal.
#[derive(Debug, Clone, Copy, PartialEq, Eq, Structural)]
pub enum ModeStep {
    /// Leave the prompt: restore the terminal.
    Leave,
    /// Enter the prompt: raw mode, window title, first draw.
    Enter,
}

/// The name of a mode in error messages.
pub open spec fn mode_name(m: InterfaceMode) -> Seq<char> {
    match m {
        InterfaceMode::NoPrompt => "None"@,
        InterfaceMode::GetPin => "GetPin"@,
        InterfaceMode::Message => "Message"@,
    }
}

/// Exec form of [`mode_name`].
pub fn mode_name_str(m: InterfaceMode) -> (r: &'static str)
    ensures
        r@ == mode_name(m),
{
    match m {
        InterfaceMode::NoPrompt => "None",
        InterfaceMode::GetPin => "GetPin",
        InterfaceMode::Message => "Message",
    }
}

/// Decides a mode change of the terminal frontend from `current` to
/// `requested`: re-entering the current mode and entering a prompt from
/// another prompt are refused; leaving is always allowed.
pub fn tty_mode_step(current: InterfaceMode, requested: InterfaceMode) -> (r: Result<
    ModeStep,
    FrontendError,
>)
    ensures
        requested == current ==> (r matches Err(FrontendError::InvalidMode(m)) && m@
            == "already in mode "@ + mode_name(requested)),
        requested != current && requested == InterfaceMode::NoPrompt ==> r matches Ok(
            ModeStep::Leave,
        ),
        requested != current && requested != InterfaceMode::NoPrompt && current
            != InterfaceMode::NoPrompt ==> (r matches Err(FrontendError::InvalidMode(m)) && m@
            == "cannot enter "@ + mode_name(requested) + " from "@ + mode_name(current)),
        requested != current && requested != InterfaceMode::NoPrompt && current
            == InterfaceMode::NoPrompt ==> r matches Ok(ModeStep::Enter),
{
    if requested == current {
        let mut m = String::from_str("already in mode ");
        m.append(mode_name_str(requested));
        return Err(FrontendError::InvalidMode(m));
    }
    if requested == InterfaceMode::NoPrompt {
        return Ok(ModeStep::Leave);
    }
    if current != InterfaceMode::NoPrompt {
        let mut m = String::from_str("cannot enter ");
        m.append(mode_name_str(requested));
        m.append(" from ");
        m.append(mode_name_str(current));
        return Err(FrontendError::InvalidMode(m));
    }
    Ok(ModeStep::Enter)
}

/// The escape sequence that sets the terminal window title for a prompt
/// titled `title`.
pub open spec fn title_sequence(title: Option<Seq<u8>>) -> Seq<u8> {
    "\x1b]2;".spec_bytes() + match title {
        Some(t) => "wayprompt TTY fallback: ".spec_bytes() + t,
        None => "wayprompt TTY fallback".spec_bytes(),
    } + seq![0x07u8]
}

/// Exec form of [`title_sequence`].
pub fn window_title_sequence(title: Option<&str>) -> (out: Vec<u8>)
    ensures
        out@ == title_sequence(
            match title {
                Some(t) => Some(t.spec_bytes()),
                None => None,
            },
        ),
{
    let mut out: Vec<u8> = Vec::new();
    push_str(&mut out, "\x1b]2;");
    match title {
        Some(t) => {
            push_str(&mut out, "wayprompt TTY fallback: ");
            push_str(&mut out, t);
        },
        None => {
            push_str(&mut out, "wayprompt TTY fallback");
        },
    }
    out.push(0x07);
    proof {
        assert(out@ =~= title_sequence(
            match title {
                Some(t) => Some(t.spec_bytes()),
                None => None,
            },
        ));
    }
    out
}

/// SGR attribute descriptor of a content block.
#[derive(Debug, Clone, Copy, PartialEq, Eq, Structural)]
pub struct Attr {
    pub bold: bool,
    pub fg_red: bool,
    pub fg_black: bool,
    pub bg_green: bool,
}

impl Default for Attr {
    /// No attribute set.
    fn default() -> (a: Attr)
        ensures
            a == (Attr { bold: false, fg_red: false, fg_black: false, bg_green: false }),
    {
        Attr { bold: false, fg_red: false, fg_black: false, bg_green: false }
    }
}

/// The SGR escape of an attribute: title (bold black on green), error
/// (bold red), prompt (bold), anything else resets.
pub open spec fn sgr_bytes(a: Attr) -> Seq<u8> {
    if a.bold && !a.fg_red && a.fg_black && a.bg_green {
        "\x1b[1;30;42m".spec_bytes()
    } else if a.bold && a.fg_red && !a.fg_black && !a.bg_green {
        "\x1b[1;31m".spec_bytes()
    } else if a.bold && !a.fg_red && !a.fg_black && !a.bg_green {
        "\x1b[1m".spec_bytes()
    } else {
        "\x1b[0m".spec_bytes()
    }
}

impl Attr {
    /// The SGR escape for this attribute.
    pub fn sgr(&self) -> (r: &'static str)
        ensures
            r.spec_bytes() == sgr_bytes(*self),
    {
        match (self.bold, self.fg_red, self.fg_black, self.bg_green) {
            (true, false, true, true) => "\x1b[1;30;42m",
            (true, true, false, false) => "\x1b[1;31m",
            (true, false, false, false) => "\x1b[1m",
            _ => "\x1b[0m",
        }
    }

    /// Whether this attribute has a background colour (needs padding).
    pub fn has_bg(&self) -> (r: bool)
        ensures
            r == self.bg_green,
    {
        self.bg_green
    }
}

/// The attribute of the title block.
pub open spec fn title_attr() -> Attr {
    Attr { bold: true, fg_red: false, fg_black: true, bg_green: true }
}

/// The attribute of the prompt block.
pub open spec fn prompt_attr() -> Attr {
    Attr { bold: true, fg_red: false, fg_black: false, bg_green: false }
}

/// The attribute of the error block.
pub open spec fn error_attr() -> Attr {
    Attr { bold: true, fg_red: true, fg_black: false, bg_green: false }
}

/// The attribute of the description block.
pub open spec fn plain_attr() -> Attr {
    Attr { bold: false, fg_red: false, fg_black: false, bg_green: false }
}

/// The escape that clears the screen and moves the cursor home.
pub open spec fn clear_home() -> Seq<u8> {
    "\x1b[2J\x1b[H".spec_bytes()
}

/// Writes the escape that clears the screen and moves the cursor home.
pub fn clear_and_home(w: &mut Vec<u8>)
    ensures
        final(w)@ == old(w)@ + clear_home(),
{
    push_str(w, "\x1b[2J\x1b[H");
}

/// The escape that moves the cursor to the start of 0-based row `line`.
pub open spec fn cursor_to(line: int) -> Seq<u8> {
    "\x1b[".spec_bytes() + decimal((line + 1) as nat) + ";1H".spec_bytes()
}

/// `n` copies of byte `c`.
pub open spec fn repeat(c: u8, n: int) -> Seq<u8> {
    Seq::new(n as nat, |_i: int| c)
}

/// The first line of `rest`: its bytes before the first `\n`, whether a
/// `\n` follows, and the text after it (`str::split('\n')`, one piece at a
/// time).
pub open spec fn split_first(rest: Seq<u8>) -> (Seq<u8>, bool, Seq<u8>) {
    match find_first(rest, 0x0a) {
        Some(p) => (rest.subrange(0, p), true, rest.subrange(p + 1, rest.len() as int)),
        None => (rest, false, Seq::empty()),
    }
}

/// Whether the text ends with a newline.
pub open spec fn ends_nl(c: Seq<u8>) -> bool {
    c.len() > 0 && c.last() == 0x0a
}

/// The padding after a content line of `n` bytes: with a background, the
/// row is filled up to `width` columns (the written width taken as a
/// `u16`).
pub open spec fn pad_len(a: Attr, n: int, width: u16) -> int {
    if a.bg_green && ((1 + n) as u16) < width {
        width - (1 + n)
    } else {
        0
    }
}

/// Whether the padding of a content line of `n` bytes is defined: a line
/// whose written width, taken as a `u16`, is below `width` although it is
/// not makes the padding computation underflow.
pub open spec fn pad_defined(a: Attr, n: int, width: u16) -> bool {
    !(a.bg_green && ((1 + n) as u16) < width) || 1 + n <= width
}

/// Rendering the lines of a content block from `rest` on, starting at row
/// `line`: the bytes written and the row after the block. Each visible line
/// is a leading space and the text, padded when the block has a background;
/// an empty piece after the first row ends the block when the content ends
/// with a newline; rows from `height` on are not drawn and end the block
/// without the blank line that otherwise follows it.
pub open spec fn content_rest(
    rest: Seq<u8>,
    nl: bool,
    a: Attr,
    line: int,
    width: u16,
    height: u16,
) -> (Seq<u8>, int)
    decreases rest.len(),
{
    let (seg, more, tail) = split_first(rest);
    if seg.len() == 0 && nl && line > 0 {
        (Seq::empty(), line + 1)
    } else if line >= height {
        (Seq::empty(), line)
    } else {
        let here = cursor_to(line) + " ".spec_bytes() + seg + repeat(
            0x20,
            pad_len(a, seg.len() as int, width),
        );
        if more && tail.len() < rest.len() {
            let r = content_rest(tail, nl, a, line + 1, width, height);
            (here + r.0, r.1)
        } else {
            (here, line + 2)
        }
    }
}

/// Whether every drawn line of a content block has a defined padding.
pub open spec fn content_ok(rest: Seq<u8>, nl: bool, a: Attr, line: int, width: u16, height: u16) -> bool
    decreases rest.len(),
{
    let (seg, more, tail) = split_first(rest);
    if seg.len() == 0 && nl && line > 0 {
        true
    } else if line >= height {
        true
    } else {
        pad_defined(a, seg.len() as int, width) && (more && tail.len() < rest.len() ==> content_ok(
            tail,
            nl,
            a,
            line + 1,
            width,
            height,
        ))
    }
}

proof fn lemma_split_first(rest: Seq<u8>)
    ensures
        split_first(rest).1 ==> split_first(rest).2.len() < rest.len() && split_first(rest).0.len()
            + 1 + split_first(rest).2.len() == rest.len(),
        !split_first(rest).1 ==> split_first(rest).0 == rest,
{
    lemma_find_from(rest, 0x0a, 0);
}

proof fn lemma_content_bound(rest: Seq<u8>, nl: bool, a: Attr, line: int, width: u16, height: u16)
    requires
        0 <= line,
    ensures
        content_rest(rest, nl, a, line, width, height).1 <= if line >= height {
            line + 1
        } else {
            height + 1
        },
        content_rest(rest, nl, a, line, width, height).1 >= line,
    decreases rest.len(),
{
    lemma_split_first(rest);
    let (seg, more, tail) = split_first(rest);
    if !(seg.len() == 0 && nl && line > 0) && line < height && more && tail.len() < rest.len() {
        lemma_content_bound(tail, nl, a, line + 1, width, height);
    }
}

proof fn lemma_plain_content_ok(rest: Seq<u8>, nl: bool, a: Attr, line: int, width: u16, height: u16)
    requires
        !a.bg_green,
    ensures
        content_ok(rest, nl, a, line, width, height),
    decreases rest.len(),
{
    let (seg, more, tail) = split_first(rest);
    if more && tail.len() < rest.len() {
        lemma_plain_content_ok(tail, nl, a, line + 1, width, height);
    }
}

/// Writes `n` spaces.
fn push_spaces(w: &mut Vec<u8>, n: usize)
    ensures
        final(w)@ == old(w)@ + repeat(0x20, n as int),
{
    push_repeat(w, 0x20, n);
}

/// Writes `n` copies of byte `c`.
fn push_repeat(w: &mut Vec<u8>, c: u8, n: usize)
    ensures
        final(w)@ == old(w)@ + repeat(c, n as int),
{
    let mut k: usize = 0;
    while k < n
        invariant
            k <= n,
            w@ == old(w)@ + repeat(c, k as int),
        decreases n - k,
    {
        w.push(c);
        k = k + 1;
        assert(w@ =~= old(w)@ + repeat(c, k as int));
    }
}

/// Writes the escape that moves the cursor to row `line`.
fn push_cursor(w: &mut Vec<u8>, line: usize)
    requires
        line < u64::MAX,
    ensures
        final(w)@ == old(w)@ + cursor_to(line as int),
{
    push_str(w, "\x1b[");
    push_decimal(w, line as u64 + 1);
    push_str(w, ";1H");
    assert(final(w)@ =~= old(w)@ + cursor_to(line as int));
}

/// Writes one visible content line at row `l`: cursor, a leading space,
/// the text and its padding.
fn content_line(w: &mut Vec<u8>, seg: &[u8], attr: Attr, l: usize, width: u16)
    requires
        l < u64::MAX,
        seg@.len() < usize::MAX,
        pad_defined(attr, seg@.len() as int, width),
    ensures
        final(w)@ == old(w)@ + (cursor_to(l as int) + " ".spec_bytes() + seg@ + repeat(
            0x20,
            pad_len(attr, seg@.len() as int, width),
        )),
{
    let ghost w0 = w@;
    push_cursor(w, l);
    push_str(w, " ");
    push_bytes(w, seg);
    let mut pad: usize = 0;
    if attr.has_bg() {
        let written = 1 + seg.len();
        if (#[verifier::truncate] (written as u16)) < width {
            pad = width as usize - written;
        }
    }
    push_spaces(w, pad);
    assert(w@ =~= w0 + (cursor_to(l as int) + " ".spec_bytes() + seg@ + repeat(
        0x20,
        pad_len(attr, seg@.len() as int, width),
    )));
}

/// Renders a multi-line content block with the given attribute: the SGR
/// escape, then the lines of [`content_rest`] from row `*line` on.
#[verifier::rlimit(40)]
pub fn render_content(w: &mut Vec<u8>, content: &str, attr: Attr, line: &mut usize, width: u16, height: u16)
    requires
        *old(line) < usize::MAX,
        content.spec_bytes().len() < usize::MAX,
        content_ok(content.spec_bytes(), ends_nl(content.spec_bytes()), attr, *old(line) as int, width, height),
    ensures
        final(w)@ == old(w)@ + sgr_bytes(attr) + content_rest(
            content.spec_bytes(),
            ends_nl(content.spec_bytes()),
            attr,
            *old(line) as int,
            width,
            height,
        ).0,
        *final(line) as int == content_rest(
            content.spec_bytes(),
            ends_nl(content.spec_bytes()),
            attr,
            *old(line) as int,
            width,
            height,
        ).1,
{
    push_str(w, attr.sgr());
    let b = content.as_bytes();
    let n = b.len();
    let nl = n > 0 && b[n - 1] == 0x0a;
    let ghost whole = content_rest(b@, nl, attr, *line as int, width, height);
    let ghost w0 = w@;
    let ghost mut acc: Seq<u8> = Seq::empty();
    let mut l: usize = *line;
    let mut pos: usize = 0;
    assert(b@.subrange(0, n as int) =~= b@);
    assert(acc + whole.0 =~= whole.0);
    loop
        invariant
            pos <= n == b@.len(),
            n < usize::MAX,
            nl == ends_nl(b@),
            b@ == content.spec_bytes(),
            l < usize::MAX,
            w0 == old(w)@ + sgr_bytes(attr),
            whole == content_rest(b@, nl, attr, *old(line) as int, width, height),
            w@ == w0 + acc,
            content_ok(b@.subrange(pos as int, n as int), nl, attr, l as int, width, height),
            whole.1 == content_rest(b@.subrange(pos as int, n as int), nl, attr, l as int, width, height).1,
            whole.0 == acc + content_rest(b@.subrange(pos as int, n as int), nl, attr, l as int, width, height).0,
        decreases n - pos,
    {
        let rest = &b[pos..n];
        proof {
            assert(rest@ =~= b@.subrange(pos as int, n as int));
            lemma_split_first(rest@);
        }
        let (end, more) = match find_byte(rest, 0x0a) {
            Some(p) => (p, true),
            None => (rest.len(), false),
        };
        let seg = &rest[0..end];
        proof {
            assert(seg@ =~= split_first(rest@).0);
        }
        if (seg.len() == 0 && nl && l > 0) || l >= height as usize {
            proof {
                assert(acc + Seq::<u8>::empty() =~= acc);
            }
            *line = if l >= height as usize && !(seg.len() == 0 && nl && l > 0) {
                l
            } else {
                l + 1
            };
            return ;
        }
        content_line(w, seg, attr, l, width);
        let ghost here = cursor_to(l as int) + " ".spec_bytes() + seg@ + repeat(
            0x20,
            pad_len(attr, seg@.len() as int, width),
        );
        proof {
            acc = acc + here;
        }
        if !more {
            proof {
                assert(content_rest(rest@, nl, attr, l as int, width, height).0 == here);
                assert(acc + Seq::<u8>::empty() =~= acc);
            }
            *line = l + 2;
            return ;
        }
        proof {
            assert(b@.subrange(pos + end + 1, n as int) =~= split_first(rest@).2);
            assert(acc =~= (acc.subrange(0, acc.len() - here.len()) + here));
        }
        l = l + 1;
        pos = pos + end + 1;
    }
}

/// Rendering the rows of a button from `rest` on, at row `line`, the first
/// row of the button being `first`: the first row shows the key and the
/// label's first line, later rows are indented under it; an empty piece
/// after the first row ends the button when the label ends with a newline;
/// rows from `height` on are not drawn. The bytes written and the row after
/// the button.
pub open spec fn button_rest(rest: Seq<u8>, nl: bool, key: Seq<u8>, first: int, line: int, height: u16) -> (
    Seq<u8>,
    int,
)
    decreases rest.len(),
{
    let (seg, more, tail) = split_first(rest);
    if seg.len() == 0 && nl && line > first {
        (Seq::empty(), line)
    } else if line >= height {
        (Seq::empty(), line)
    } else {
        let here = cursor_to(line) + " ".spec_bytes() + (if line == first {
            key + ": ".spec_bytes()
        } else {
            repeat(0x20, key.len() + 2int)
        }) + seg;
        if more && tail.len() < rest.len() {
            let r = button_rest(tail, nl, key, first, line + 1, height);
            (here + r.0, r.1)
        } else {
            (here, line + 1)
        }
    }
}

proof fn lemma_button_bound(rest: Seq<u8>, nl: bool, key: Seq<u8>, first: int, line: int, height: u16)
    requires
        0 <= line,
    ensures
        button_rest(rest, nl, key, first, line, height).1 <= if line >= height {
            line
        } else {
            height as int
        },
        button_rest(rest, nl, key, first, line, height).1 >= line,
    decreases rest.len(),
{
    lemma_split_first(rest);
    let (seg, more, tail) = split_first(rest);
    if !(seg.len() == 0 && nl && line > first) && line < height && more && tail.len() < rest.len() {
        lemma_button_bound(tail, nl, key, first, line + 1, height);
    }
}

/// Writes one visible button row at row `l`: cursor, a leading space, the
/// key on the first row or the indentation under it, and the text.
fn button_line(w: &mut Vec<u8>, kb: &[u8], seg: &[u8], first_row: bool, l: usize)
    requires
        l < u64::MAX,
        kb@.len() + 2 <= usize::MAX,
    ensures
        final(w)@ == old(w)@ + (cursor_to(l as int) + " ".spec_bytes() + (if first_row {
            kb@ + ": ".spec_bytes()
        } else {
            repeat(0x20, kb@.len() + 2int)
        }) + seg@),
{
    let ghost w0 = w@;
    push_cursor(w, l);
    push_str(w, " ");
    if first_row {
        push_bytes(w, kb);
        push_str(w, ": ");
    } else {
        push_spaces(w, kb.len() + 2);
    }
    push_bytes(w, seg);
    assert(w@ =~= w0 + (cursor_to(l as int) + " ".spec_bytes() + (if first_row {
        kb@ + ": ".spec_bytes()
    } else {
        repeat(0x20, kb@.len() + 2int)
    }) + seg@));
}

/// Renders a button: an attribute reset, then " <key>: <label>" with the
/// label's further lines indented under it ([`button_rest`]).
#[verifier::rlimit(40)]
pub fn render_button(w: &mut Vec<u8>, key: &str, label: &str, line: &mut usize, width: u16, height: u16)
    requires
        key.spec_bytes().len() + 2 <= usize::MAX,
    ensures
        final(w)@ == old(w)@ + "\x1b[0m".spec_bytes() + button_rest(
            label.spec_bytes(),
            ends_nl(label.spec_bytes()),
            key.spec_bytes(),
            *old(line) as int,
            *old(line) as int,
            height,
        ).0,
        *final(line) as int == button_rest(
            label.spec_bytes(),
            ends_nl(label.spec_bytes()),
            key.spec_bytes(),
            *old(line) as int,
            *old(line) as int,
            height,
        ).1,
{
    push_str(w, "\x1b[0m");
    let kb = key.as_bytes();
    let b = label.as_bytes();
    let n = b.len();
    let nl = n > 0 && b[n - 1] == 0x0a;
    let first = *line;
    let ghost whole = button_rest(b@, nl, kb@, first as int, first as int, height);
    let ghost w0 = w@;
    let ghost mut acc: Seq<u8> = Seq::empty();
    let mut l: usize = first;
    let mut pos: usize = 0;
    assert(b@.subrange(0, n as int) =~= b@);
    assert(acc + whole.0 =~= whole.0);
    loop
        invariant
            pos <= n == b@.len(),
            nl == ends_nl(b@),
            b@ == label.spec_bytes(),
            kb@ == key.spec_bytes(),
            kb@.len() + 2 <= usize::MAX,
            first == *old(line),
            first <= l,
            l == first || l <= height,
            w0 == old(w)@ + "\x1b[0m".spec_bytes(),
            whole == button_rest(b@, nl, kb@, first as int, first as int, height),
            w@ == w0 + acc,
            whole.1 == button_rest(b@.subrange(pos as int, n as int), nl, kb@, first as int, l as int, height).1,
            whole.0 == acc + button_rest(b@.subrange(pos as int, n as int), nl, kb@, first as int, l as int, height).0,
        decreases n - pos,
    {
        let rest = &b[pos..n];
        proof {
            assert(rest@ =~= b@.subrange(pos as int, n as int));
            lemma_split_first(rest@);
        }
        let (end, more) = match find_byte(rest, 0x0a) {
            Some(p) => (p, true),
            None => (rest.len(), false),
        };
        let seg = &rest[0..end];
        proof {
            assert(seg@ =~= split_first(rest@).0);
        }
        if (seg.len() == 0 && nl && l > first) || l >= height as usize {
            proof {
                assert(acc + Seq::<u8>::empty() =~= acc);
            }
            *line = l;
            return ;
        }
        button_line(w, kb, seg, l == first, l);
        let ghost here = cursor_to(l as int) + " ".spec_bytes() + (if l == first {
            kb@ + ": ".spec_bytes()
        } else {
            repeat(0x20, kb@.len() + 2int)
        }) + seg@;
        proof {
            acc = acc + here;
        }
        if !more {
            proof {
                assert(button_rest(rest@, nl, kb@, first as int, l as int, height).0 == here);
                assert(acc + Seq::<u8>::empty() =~= acc);
            }
            *line = l + 1;
            return ;
        }
        proof {
            assert(b@.subrange(pos + end + 1, n as int) =~= split_first(rest@).2);
        }
        l = l + 1;
        pos = pos + end + 1;
    }
}

/// The PIN row at row `line`: nothing from row `height` on, else the bold
/// " > " marker, one `*` per entered character up to `amount` and `_` for
/// the rest; the row and the blank row after it are used.
pub open spec fn pin_row(amount: u16, len: nat, line: int, height: u16) -> (Seq<u8>, int) {
    if line >= height {
        (Seq::empty(), line)
    } else {
        let filled = if len < amount {
            len as int
        } else {
            amount as int
        };
        (
            "\x1b[1m".spec_bytes() + cursor_to(line) + " > ".spec_bytes() + repeat(0x2a, filled)
                + repeat(0x5f, amount - filled),
            line + 2,
        )
    }
}

/// Renders the PIN entry row ([`pin_row`]).
pub fn render_pin_row(w: &mut Vec<u8>, pin_square_amount: u16, len: usize, line: &mut usize, height: u16)
    ensures
        final(w)@ == old(w)@ + pin_row(pin_square_amount, len as nat, *old(line) as int, height).0,
        *final(line) as int == pin_row(pin_square_amount, len as nat, *old(line) as int, height).1,
{
    if *line >= height as usize {
        return ;
    }
    let ghost w0 = w@;
    push_str(w, "\x1b[1m");
    push_cursor(w, *line);
    push_str(w, " > ");
    let squares = pin_square_amount as usize;
    let filled = if squares < len {
        squares
    } else {
        len
    };
    let empty = if squares > len {
        squares - len
    } else {
        0
    };
    push_repeat(w, 0x2a, filled);
    push_repeat(w, 0x5f, empty);
    assert(w@ =~= w0 + pin_row(pin_square_amount, len as nat, *line as int, height).0);
    *line = *line + 2;
}

/// A content block drawn from an optional label at row `line`: the bytes
/// and the row after it (nothing for an absent label).
pub open spec fn opt_block(o: Option<Seq<char>>, a: Attr, line: int, width: u16, height: u16) -> (
    Seq<u8>,
    int,
) {
    match o {
        Some(t) => {
            let r = content_rest(encode_utf8(t), ends_nl(encode_utf8(t)), a, line, width, height);
            (sgr_bytes(a) + r.0, r.1)
        },
        None => (Seq::empty(), line),
    }
}

/// A button drawn from an optional label at row `line`.
pub open spec fn opt_button(o: Option<Seq<char>>, key: Seq<u8>, line: int, height: u16) -> (
    Seq<u8>,
    int,
) {
    match o {
        Some(t) => {
            let r = button_rest(encode_utf8(t), ends_nl(encode_utf8(t)), key, line, line, height);
            ("\x1b[0m".spec_bytes() + r.0, r.1)
        },
        None => (Seq::empty(), line),
    }
}

/// The full terminal screen: cleared, then (unless the terminal is smaller
/// than 5x5, which only shows a warning) the title, description and prompt
/// blocks, the PIN row in the PIN prompt, the error block, the OK, not-OK
/// and cancel buttons, each from the row where the previous one ended, and
/// a final attribute reset.
pub open spec fn screen(
    l: LabelsView,
    amount: u16,
    mode: InterfaceMode,
    pin_len: nat,
    width: u16,
    height: u16,
) -> Seq<u8> {
    if width < 5 || height < 5 {
        clear_home() + "\x1b[1;31m".spec_bytes() + "Terminal too small!".spec_bytes()
    } else {
        let t = opt_block(l.title, title_attr(), 0, width, height);
        let d = opt_block(l.description, plain_attr(), t.1, width, height);
        let p = opt_block(l.prompt, prompt_attr(), d.1, width, height);
        let pin = if mode == InterfaceMode::GetPin {
            pin_row(amount, pin_len, p.1, height)
        } else {
            (Seq::empty(), p.1)
        };
        let e = opt_block(l.err_message, error_attr(), pin.1, width, height);
        let o = opt_button(l.ok, "enter".spec_bytes(), e.1, height);
        let n = opt_button(l.not_ok, "C-c".spec_bytes(), o.1, height);
        let c = opt_button(l.cancel, "escape".spec_bytes(), n.1, height);
        clear_home() + t.0 + d.0 + p.0 + pin.0 + e.0 + o.0 + n.0 + c.0 + "\x1b[0m".spec_bytes()
    }
}

/// The length of an optional label's encoding fits below `usize::MAX`.
pub open spec fn label_fits(o: Option<Seq<char>>) -> bool {
    match o {
        Some(t) => encode_utf8(t).len() < usize::MAX,
        None => true,
    }
}

/// Whether [`screen`] is defined: every line of the padded title block has
/// a defined padding, and every label's encoding is shorter than
/// `usize::MAX` bytes.
pub open spec fn screen_defined(l: LabelsView, width: u16, height: u16) -> bool {
    &&& match l.title {
        Some(t) => content_ok(encode_utf8(t), ends_nl(encode_utf8(t)), title_attr(), 0, width, height),
        None => true,
    }
    &&& label_fits(l.title)
    &&& label_fits(l.description)
    &&& label_fits(l.prompt)
    &&& label_fits(l.err_message)
}

/// Draws an optional content block.
fn block(w: &mut Vec<u8>, o: &Option<String>, attr: Attr, line: &mut usize, width: u16, height: u16)
    requires
        *old(line) < usize::MAX,
        label_fits(crate::config::opt_view(*o)),
        match crate::config::opt_view(*o) {
            Some(t) => content_ok(encode_utf8(t), ends_nl(encode_utf8(t)), attr, *old(line) as int, width, height),
            None => true,
        },
    ensures
        final(w)@ == old(w)@ + opt_block(crate::config::opt_view(*o), attr, *old(line) as int, width, height).0,
        *final(line) as int == opt_block(crate::config::opt_view(*o), attr, *old(line) as int, width, height).1,
{
    match o {
        Some(t) => {
            render_content(w, t.as_str(), attr, line, width, height);
        },
        None => {
            assert(old(w)@ + Seq::<u8>::empty() =~= old(w)@);
        },
    }
}

/// Draws an optional button.
fn button(w: &mut Vec<u8>, o: &Option<String>, key: &str, line: &mut usize, width: u16, height: u16)
    requires
        key.spec_bytes().len() + 2 <= usize::MAX,
    ensures
        final(w)@ == old(w)@ + opt_button(crate::config::opt_view(*o), key.spec_bytes(), *old(line) as int, height).0,
        *final(line) as int == opt_button(crate::config::opt_view(*o), key.spec_bytes(), *old(line) as int, height).1,
{
    match o {
        Some(t) => {
            render_button(w, key, t.as_str(), line, width, height);
        },
        None => {
            assert(old(w)@ + Seq::<u8>::empty() =~= old(w)@);
        },
    }
}

proof fn lemma_block_bound(o: Option<Seq<char>>, a: Attr, line: int, width: u16, height: u16)
    requires
        0 <= line,
    ensures
        line <= opt_block(o, a, line, width, height).1 <= if line >= height {
            line + 1
        } else {
            height + 1
        },
{
    if let Some(t) = o {
        lemma_content_bound(encode_utf8(t), ends_nl(encode_utf8(t)), a, line, width, height);
    }
}

/// Whether every drawn line of a content block has a defined padding
/// ([`content_ok`]).
pub fn content_fits(content: &str, attr: Attr, line: usize, width: u16, height: u16) -> (r: bool)
    requires
        content.spec_bytes().len() < usize::MAX,
    ensures
        r == content_ok(content.spec_bytes(), ends_nl(content.spec_bytes()), attr, line as int, width, height),
{
    let b = content.as_bytes();
    let n = b.len();
    let nl = n > 0 && b[n - 1] == 0x0a;
    let mut l: usize = line;
    let mut pos: usize = 0;
    assert(b@.subrange(0, n as int) =~= b@);
    loop
        invariant
            pos <= n == b@.len(),
            n < usize::MAX,
            nl == ends_nl(b@),
            b@ == content.spec_bytes(),
            content_ok(b@, nl, attr, line as int, width, height) == content_ok(
                b@.subrange(pos as int, n as int),
                nl,
                attr,
                l as int,
                width,
                height,
            ),
        decreases n - pos,
    {
        let rest = &b[pos..n];
        proof {
            assert(rest@ =~= b@.subrange(pos as int, n as int));
            lemma_split_first(rest@);
        }
        let (end, more) = match find_byte(rest, 0x0a) {
            Some(p) => (p, true),
            None => (rest.len(), false),
        };
        let seg = &rest[0..end];
        proof {
            assert(seg@ =~= split_first(rest@).0);
        }
        if (seg.len() == 0 && nl && l > 0) || l >= height as usize {
            return true;
        }
        if attr.has_bg() {
            let written = 1 + seg.len();
            if (#[verifier::truncate] (written as u16)) < width && written > width as usize {
                return false;
            }
        }
        if !more {
            return true;
        }
        proof {
            assert(b@.subrange(pos + end + 1, n as int) =~= split_first(rest@).2);
        }
        l = l + 1;
        pos = pos + end + 1;
    }
}

/// Whether [`render_screen`] is defined on these labels and this terminal
/// size ([`screen_defined`]).
pub fn screen_renderable(labels: &Labels, width: u16, height: u16) -> (r: bool)
    ensures
        r == screen_defined(labels@, width, height),
{
    let title_ok = match &labels.title {
        Some(t) => t.as_str().as_bytes().len() < usize::MAX && content_fits(
            t.as_str(),
            Attr { bold: true, fg_red: false, fg_black: true, bg_green: true },
            0,
            width,
            height,
        ),
        None => true,
    };
    let fits = |o: &Option<String>| -> (r: bool)
        ensures
            r == label_fits(crate::config::opt_view(*o)),
        {
            match o {
                Some(t) => t.as_str().as_bytes().len() < usize::MAX,
                None => true,
            }
        };
    title_ok && fits(&labels.description) && fits(&labels.prompt) && fits(&labels.err_message)
}

/// Draws the full terminal screen ([`screen`]) for the labels, the PIN
/// square count, the prompt mode, the number of entered characters and the
/// terminal size.
#[verifier::rlimit(40)]
pub fn render_screen(
    labels: &Labels,
    pin_square_amount: u16,
    mode: InterfaceMode,
    pin_len: usize,
    width: u16,
    height: u16,
) -> (out: Vec<u8>)
    requires
        screen_defined(labels@, width, height),
    ensures
        out@ == screen(labels@, pin_square_amount, mode, pin_len as nat, width, height),
{
    let mut out: Vec<u8> = Vec::new();
    clear_and_home(&mut out);
    if width < 5 || height < 5 {
        push_str(&mut out, "\x1b[1;31m");
        push_str(&mut out, "Terminal too small!");
        return out;
    }
    let ghost l = labels@;
    let mut line: usize = 0;
    let ghost t = opt_block(l.title, title_attr(), 0, width, height);
    proof {
        lemma_block_bound(l.title, title_attr(), 0, width, height);
        lemma_plain_content_ok_opt(l.description, plain_attr(), t.1, width, height);
    }
    block(&mut out, &labels.title, Attr { bold: true, fg_red: false, fg_black: true, bg_green: true }, &mut line, width, height);
    let ghost d = opt_block(l.description, plain_attr(), t.1, width, height);
    proof {
        lemma_block_bound(l.description, plain_attr(), t.1, width, height);
        lemma_plain_content_ok_opt(l.prompt, prompt_attr(), d.1, width, height);
    }
    block(&mut out, &labels.description, Attr::default(), &mut line, width, height);
    let ghost p = opt_block(l.prompt, prompt_attr(), d.1, width, height);
    proof {
        lemma_block_bound(l.prompt, prompt_attr(), d.1, width, height);
    }
    block(&mut out, &labels.prompt, Attr { bold: true, fg_red: false, fg_black: false, bg_green: false }, &mut line, width, height);
    if mode == InterfaceMode::GetPin {
        render_pin_row(&mut out, pin_square_amount, pin_len, &mut line, height);
    } else {
        assert(out@ + Seq::<u8>::empty() =~= out@);
    }
    let ghost pin = if mode == InterfaceMode::GetPin {
        pin_row(pin_square_amount, pin_len as nat, p.1, height)
    } else {
        (Seq::empty(), p.1)
    };
    proof {
        lemma_plain_content_ok_opt(l.err_message, error_attr(), pin.1, width, height);
        lemma_block_bound(l.err_message, error_attr(), pin.1, width, height);
    }
    block(&mut out, &labels.err_message, Attr { bold: true, fg_red: true, fg_black: false, bg_green: false }, &mut line, width, height);
    proof {
        reveal_strlit("enter");
        reveal_strlit("C-c");
        reveal_strlit("escape");
        assert(is_ascii_chars("enter"@));
        assert(is_ascii_chars("C-c"@));
        assert(is_ascii_chars("escape"@));
    }
    button(&mut out, &labels.ok, "enter", &mut line, width, height);
    button(&mut out, &labels.not_ok, "C-c", &mut line, width, height);
    button(&mut out, &labels.cancel, "escape", &mut line, width, height);
    push_str(&mut out, "\x1b[0m");
    out
}

proof fn lemma_plain_content_ok_opt(o: Option<Seq<char>>, a: Attr, line: int, width: u16, height: u16)
    requires
        !a.bg_green,
    ensures
        match o {
            Some(t) => content_ok(encode_utf8(t), ends_nl(encode_utf8(t)), a, line, width, height),
            None => true,
        },
{
    if let Some(t) = o {
        lemma_plain_content_ok(encode_utf8(t), ends_nl(encode_utf8(t)), a, line, width, height);
    }
}

/// Printable ASCII text types itself: every byte of `b` from `i` on becomes
/// the character it encodes.
pub proof fn law_printable_ascii_types_itself(b: Seq<u8>, i: int)
    requires
        0 <= i <= b.len(),
        forall|j: int| 0 <= j < b.len() ==> 0x20 <= #[trigger] b[j] && b[j] <= 0x7e,
    ensures
        tokens_from(b, i) == Seq::new(
            (b.len() - i) as nat,
            |k: int| TtyInput::Codepoint(b[i + k] as char),
        ),
    decreases b.len() - i,
{
    if i < b.len() {
        let c = b[i];
        let one = b.subrange(i, i + 1);
        assert(one =~= seq![c]);
        let cs = seq![c as char];
        assert(is_ascii_chars(cs));
        is_ascii_chars_encode_utf8(cs);
        assert(encode_utf8(cs) =~= one);
        encode_utf8_decode_utf8(cs);
        encode_utf8_valid_utf8(cs);
        law_printable_ascii_types_itself(b, i + 1);
        assert(tokens_from(b, i) =~= Seq::new(
            (b.len() - i) as nat,
            |k: int| TtyInput::Codepoint(b[i + k] as char),
        ));
    } else {
        assert(tokens_from(b, i) =~= Seq::new(
            (b.len() - i) as nat,
            |k: int| TtyInput::Codepoint(b[i + k] as char),
        ));
    }
}

/// Outside the PIN prompt no key edits the PIN.
pub proof fn law_no_pin_edits_outside_pin_prompt(
    t: Seq<TtyInput>,
    i: int,
    mode: InterfaceMode,
    has_not_ok: bool,
)
    requires
        mode != InterfaceMode::GetPin,
    ensures
        input_effects(t, i, mode, has_not_ok).1 == Seq::<PinEdit>::empty(),
    decreases t.len() - i,
{
    if 0 <= i < t.len() {
        law_no_pin_edits_outside_pin_prompt(t, i + 1, mode, has_not_ok);
    }
}

/// The PIN row shows exactly `amount` squares, of which the entered ones
/// are stars, however long the PIN is.
pub proof fn law_pin_row_hides_length(amount: u16, len: nat, line: int, height: u16)
    requires
        line < height,
    ensures
        pin_row(amount, len, line, height).0 == "\x1b[1m".spec_bytes() + cursor_to(line)
            + " > ".spec_bytes() + repeat(0x2a, if len < amount { len as int } else { amount as int })
            + repeat(0x5f, if len < amount { amount - len } else { 0 }),
        (if len < amount { len as int } else { amount as int }) + (if len < amount { amount - len } else { 0 }) == amount,
{
}

/// Whether `needle` occurs as a contiguous run of bytes in `hay`.
pub open spec fn occurs_in(needle: Seq<u8>, hay: Seq<u8>) -> bool {
    exists|i: int|
        0 <= i && i + needle.len() <= hay.len() && #[trigger] hay.subrange(i, i + needle.len())
            == needle
}

/// Whether an optional label is absent or one line: its encoding holds no
/// newline.
pub open spec fn one_line(o: Option<Seq<char>>) -> bool {
    match o {
        Some(t) => forall|i: int| 0 <= i < encode_utf8(t).len() ==> #[trigger] encode_utf8(t)[i] != 0x0a,
        None => true,
    }
}

proof fn lemma_no_newline_found(b: Seq<u8>, i: int)
    requires
        0 <= i,
        forall|j: int| 0 <= j < b.len() ==> #[trigger] b[j] != 0x0a,
    ensures
        crate::text::find_from(b, 0x0a, i) is None,
    decreases b.len() - i,
{
    if i < b.len() {
        lemma_no_newline_found(b, i + 1);
    }
}

proof fn lemma_occurs_extend(n: Seq<u8>, a: Seq<u8>, x: Seq<u8>, b: Seq<u8>)
    requires
        occurs_in(n, x),
    ensures
        occurs_in(n, a + x),
        occurs_in(n, x + b),
{
    let i = choose|i: int|
        0 <= i && i + n.len() <= x.len() && #[trigger] x.subrange(i, i + n.len()) == n;
    assert((a + x).subrange(a.len() + i, a.len() + i + n.len()) =~= x.subrange(i, i + n.len()));
    assert((x + b).subrange(i, i + n.len()) =~= x.subrange(i, i + n.len()));
}

/// A one-line label drawn from a visible row `line` shows its text and
/// takes two rows.
proof fn lemma_one_line_block(o: Option<Seq<char>>, a: Attr, line: int, width: u16, height: u16)
    requires
        one_line(o),
        0 <= line < height,
    ensures
        opt_block(o, a, line, width, height).1 == if o is Some {
            line + 2
        } else {
            line
        },
        o matches Some(t) ==> occurs_in(encode_utf8(t), opt_block(o, a, line, width, height).0),
{
    if let Some(t) = o {
        let e = encode_utf8(t);
        lemma_no_newline_found(e, 0);
        assert(!ends_nl(e)) by {
            if e.len() > 0 {
                assert(e[e.len() - 1] != 0x0a);
            }
        }
        assert(split_first(e) == (e, false, Seq::<u8>::empty()));
        let here = cursor_to(line) + " ".spec_bytes() + e + repeat(0x20, pad_len(a, e.len() as int, width));
        assert(content_rest(e, false, a, line, width, height) == (here, line + 2));
        let blk = sgr_bytes(a) + here;
        let pre = sgr_bytes(a) + cursor_to(line) + " ".spec_bytes();
        assert(blk.subrange(pre.len() as int, pre.len() + e.len() as int) =~= e);
    }
}

/// With a terminal of at least 5x5, every one-line title, description and
/// prompt that is set is drawn: its text appears in the screen.
pub proof fn law_set_labels_are_shown(
    l: LabelsView,
    amount: u16,
    mode: InterfaceMode,
    pin_len: nat,
    width: u16,
    height: u16,
)
    requires
        width >= 5,
        height >= 5,
        one_line(l.title),
        one_line(l.description),
        one_line(l.prompt),
    ensures
        l.title matches Some(t) ==> occurs_in(encode_utf8(t), screen(l, amount, mode, pin_len, width, height)),
        l.description matches Some(t) ==> occurs_in(
            encode_utf8(t),
            screen(l, amount, mode, pin_len, width, height),
        ),
        l.prompt matches Some(t) ==> occurs_in(encode_utf8(t), screen(l, amount, mode, pin_len, width, height)),
{
    let t = opt_block(l.title, title_attr(), 0, width, height);
    lemma_one_line_block(l.title, title_attr(), 0, width, height);
    let d = opt_block(l.description, plain_attr(), t.1, width, height);
    lemma_one_line_block(l.description, plain_attr(), t.1, width, height);
    let p = opt_block(l.prompt, prompt_attr(), d.1, width, height);
    lemma_one_line_block(l.prompt, prompt_attr(), d.1, width, height);
    let pin = if mode == InterfaceMode::GetPin {
        pin_row(amount, pin_len, p.1, height)
    } else {
        (Seq::empty(), p.1)
    };
    let e = opt_block(l.err_message, error_attr(), pin.1, width, height);
    let o = opt_button(l.ok, "enter".spec_bytes(), e.1, height);
    let n = opt_button(l.not_ok, "C-c".spec_bytes(), o.1, height);
    let c = opt_button(l.cancel, "escape".spec_bytes(), n.1, height);
    let fin = "\x1b[0m".spec_bytes();
    let x1 = clear_home() + t.0;
    let x2 = x1 + d.0;
    let x3 = x2 + p.0;
    let scr = screen(l, amount, mode, pin_len, width, height);
    assert(scr == x3 + pin.0 + e.0 + o.0 + n.0 + c.0 + fin);
    if let Some(x) = l.title {
        lemma_occurs_extend(encode_utf8(x), clear_home(), t.0, d.0);
        lemma_occurs_extend(encode_utf8(x), clear_home(), x1, d.0);
        lemma_occurs_extend(encode_utf8(x), clear_home(), x2, p.0);
    }
    if let Some(x) = l.description {
        lemma_occurs_extend(encode_utf8(x), x1, d.0, p.0);
        lemma_occurs_extend(encode_utf8(x), x1, x2, p.0);
    }
    if let Some(x) = l.prompt {
        lemma_occurs_extend(encode_utf8(x), x2, p.0, pin.0);
    }
    lemma_occurs_tail(x3, pin.0, e.0, o.0, n.0, c.0, fin);
}

/// Whatever occurs in the start of the screen occurs in the screen.
proof fn lemma_occurs_tail(
    x: Seq<u8>,
    a: Seq<u8>,
    b: Seq<u8>,
    c: Seq<u8>,
    d: Seq<u8>,
    e: Seq<u8>,
    f: Seq<u8>,
)
    ensures
        forall|w: Seq<u8>| occurs_in(w, x) ==> #[trigger] occurs_in(w, x + a + b + c + d + e + f),
{
    assert forall|w: Seq<u8>| occurs_in(w, x) implies #[trigger] occurs_in(w, x + a + b + c + d + e + f) by {
        lemma_occurs_extend(w, a, x, a);
        lemma_occurs_extend(w, a, x + a, b);
        lemma_occurs_extend(w, a, x + a + b, c);
        lemma_occurs_extend(w, a, x + a + b + c, d);
        lemma_occurs_extend(w, a, x + a + b + c + d, e);
        lemma_occurs_extend(w, a, x + a + b + c + d + e, f);
    }
}

} // verus!
