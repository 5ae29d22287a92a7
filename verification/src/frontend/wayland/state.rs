//! Wayland frontend state decisions: how an exit reason ends the prompt,
//! how a mode change proceeds, the check after the initial round-trip, and
//! the tracking of output scales.
use vstd::prelude::*;

use crate::frontend::{Event, FrontendError, InterfaceMode};
use crate::text::{join_path, path_join, to_owned_string, view_opt};

verus! {

/// Why the Wayland prompt ends.
#[derive(Debug)]
pub enum ExitReason {
    UserOk,
    UserAbort,
    UserNotOk,
    /// A non-user error.
    Error(FrontendError),
}

impl ExitReason {
    /// The outcome the frontend reports: the user's event, or the error.
    pub fn into_result(self) -> (r: Result<Event, FrontendError>)
        ensures
            match self {
                ExitReason::UserOk => r matches Ok(Event::UserOk),
                ExitReason::UserAbort => r matches Ok(Event::UserAbort),
                ExitReason::UserNotOk => r matches Ok(Event::UserNotOk),
                ExitReason::Error(e) => r matches Err(f) && f == e,
            },
    {
        match self {
            ExitReason::UserOk => Ok(Event::UserOk),
            ExitReason::UserAbort => Ok(Event::UserAbort),
            ExitReason::UserNotOk => Ok(Event::UserNotOk),
            ExitReason::Error(e) => Err(e),
        }
    }
}

/// How a mode change of the Wayland frontend proceeds.
#[derive(Debug, Clone, Copy, PartialEq, Eq, Structural)]
pub enum WaylandModeStep {
    /// The mode is already current: nothing happens.
    Unchanged,
    /// The initial round-trip is still pending: the mode is applied when it
    /// completes.
    Defer,
    /// Tear the surface down and, for a prompt mode, create a new one.
    Switch,
}

/// Decides a mode change of the Wayland frontend from `current` to
/// `requested`. Only leaving the prompt may be requested again while no
/// prompt is shown (re-requesting a prompt mode is a contract violation of
/// the caller, which aborts).
pub fn wayland_mode_step(current: InterfaceMode, requested: InterfaceMode, sync_pending: bool) -> (s:
    WaylandModeStep)
    requires
        requested == current ==> current == InterfaceMode::NoPrompt,
    ensures
        requested == current ==> s == WaylandModeStep::Unchanged,
        requested != current && sync_pending ==> s == WaylandModeStep::Defer,
        requested != current && !sync_pending ==> s == WaylandModeStep::Switch,
{
    if requested == current {
        WaylandModeStep::Unchanged
    } else if sync_pending {
        WaylandModeStep::Defer
    } else {
        WaylandModeStep::Switch
    }
}

/// The error after the initial round-trip when a required global (layer
/// shell, compositor or shared memory) was not announced.
pub fn missing_globals(has_layer_shell: bool, has_compositor: bool, has_shm: bool) -> (r: Option<
    FrontendError,
>)
    ensures
        (has_layer_shell && has_compositor && has_shm) <==> r is None,
        r matches Some(e) ==> (e matches FrontendError::Init(m) && m@ == "missing wayland interfaces"@),
{
    if !has_layer_shell || !has_compositor || !has_shm {
        Some(FrontendError::Init(String::from_str("missing wayland interfaces")))
    } else {
        None
    }
}

/// The new integer scale of an output after a `scale` event with `factor`
/// (non-positive factors become 0, meaning unknown), and whether it
/// changed.
pub fn output_scale_update(current: u32, factor: i32) -> (r: (u32, bool))
    ensures
        r.0 == (if factor > 0 {
            factor as u32
        } else {
            0u32
        }),
        r.1 == (r.0 != current),
{
    let scale: u32 = if factor > 0 {
        factor as u32
    } else {
        0
    };
    (scale, scale != current)
}

/// Whether a Unix path is absolute: it starts with `/`.
pub open spec fn is_absolute(p: Seq<char>) -> bool {
    p.len() > 0 && p[0] == '/'
}

/// The display socket: the configured display, else `$WAYLAND_DISPLAY`;
/// an absolute name is the socket itself, a relative one lives in
/// `$XDG_RUNTIME_DIR`, which must then be set and absolute. `Err` carries
/// the reason the display is unavailable.
pub open spec fn spec_display_socket(
    configured: Option<Seq<char>>,
    environment: Option<Seq<char>>,
    runtime_dir: Option<Seq<char>>,
) -> Result<Seq<char>, Seq<char>> {
    let display = match configured {
        Some(c) => Some(c),
        None => environment,
    };
    match display {
        None => Err("no Wayland display"@),
        Some(d) => if is_absolute(d) {
            Ok(d)
        } else {
            match runtime_dir {
                None => Err("XDG_RUNTIME_DIR is not set"@),
                Some(r) => if is_absolute(r) {
                    Ok(path_join(r, d))
                } else {
                    Err("XDG_RUNTIME_DIR is not an absolute path"@)
                },
            }
        },
    }
}

fn absolute(p: &str) -> (r: bool)
    ensures
        r == is_absolute(p@),
{
    p.unicode_len() > 0 && p.get_char(0) == '/'
}

fn unavailable(reason: &str) -> (e: FrontendError)
    ensures
        e matches FrontendError::Unavailable(t) && t@ == reason@,
{
    FrontendError::Unavailable(to_owned_string(reason))
}

/// Resolves the Wayland display socket path ([`spec_display_socket`]);
/// the environment's values are handed in by the caller.
pub fn resolve_display_socket(
    configured: Option<&str>,
    environment: Option<&str>,
    runtime_dir: Option<&str>,
) -> (r: Result<String, FrontendError>)
    ensures
        match spec_display_socket(view_opt(configured), view_opt(environment), view_opt(runtime_dir)) {
            Ok(p) => r matches Ok(s) && s@ == p,
            Err(m) => r matches Err(FrontendError::Unavailable(t)) && t@ == m,
        },
{
    proof {
        reveal_strlit("no Wayland display");
        reveal_strlit("XDG_RUNTIME_DIR is not set");
        reveal_strlit("XDG_RUNTIME_DIR is not an absolute path");
    }
    let display = match configured {
        Some(c) => c,
        None => match environment {
            Some(e) => e,
            None => {
                return Err(unavailable("no Wayland display"));
            },
        },
    };
    if absolute(display) {
        return Ok(to_owned_string(display));
    }
    let runtime_dir = match runtime_dir {
        Some(r) => r,
        None => {
            return Err(unavailable("XDG_RUNTIME_DIR is not set"));
        },
    };
    if !absolute(runtime_dir) {
        return Err(unavailable("XDG_RUNTIME_DIR is not an absolute path"));
    }
    Ok(join_path(runtime_dir, display))
}

} // verus!
