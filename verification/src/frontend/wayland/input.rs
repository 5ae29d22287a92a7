//! Seat input decisions: what a key press does to the prompt, and the
//! tracking of touch points that started on a hotspot.
use vstd::prelude::*;

use crate::frontend::{Event, InterfaceMode};
use crate::frontend::wayland::render::{effect_event, spec_contains, HotSpot};

verus! {

/// The keys the prompt reacts to, by keysym.
#[derive(Debug, Clone, Copy, PartialEq, Eq, Structural)]
pub enum Key {
    /// No symbol for the key.
    NoSymbol,
    Return,
    Escape,
    BackSpace,
    Delete,
    /// Lower-case `u`.
    U,
    /// Lower-case `w`.
    W,
    /// Any other symbol.
    Other,
}

/// What a key press does.
#[derive(Debug, Clone, Copy, PartialEq, Eq, Structural)]
pub enum KeyAction {
    /// Nothing.
    Ignore,
    /// Clear the PIN, then redraw.
    ResetPin,
    /// Remove the PIN's last character, then redraw.
    DeletePin,
    /// Append the key's text to the PIN (when it has any), then redraw.
    AppendText,
    /// End the prompt with this event.
    Exit(Event),
}

/// What pressing `key` does in mode `mode`, with or without Ctrl held:
/// with Ctrl, Backspace, `u` and `w` clear the PIN in the PIN prompt and
/// everything else is ignored; Return accepts, Escape cancels, Backspace
/// deletes in the PIN prompt, Delete is ignored, and any other key types
/// into the PIN prompt.
pub open spec fn spec_key_action(key: Key, ctrl: bool, mode: InterfaceMode) -> KeyAction {
    let pin = mode == InterfaceMode::GetPin;
    if key == Key::NoSymbol {
        KeyAction::Ignore
    } else if ctrl {
        if (key == Key::BackSpace || key == Key::U || key == Key::W) && pin {
            KeyAction::ResetPin
        } else {
            KeyAction::Ignore
        }
    } else if key == Key::Return {
        KeyAction::Exit(Event::UserOk)
    } else if key == Key::Escape {
        KeyAction::Exit(Event::UserAbort)
    } else if key == Key::BackSpace {
        if pin {
            KeyAction::DeletePin
        } else {
            KeyAction::Ignore
        }
    } else if key == Key::Delete || !pin {
        KeyAction::Ignore
    } else {
        KeyAction::AppendText
    }
}

/// Decides what a key press does ([`spec_key_action`]).
pub fn key_action(key: Key, ctrl: bool, mode: InterfaceMode) -> (a: KeyAction)
    ensures
        a == spec_key_action(key, ctrl, mode),
{
    if key == Key::NoSymbol {
        return KeyAction::Ignore;
    }
    let pin = mode == InterfaceMode::GetPin;
    if ctrl {
        if (key == Key::BackSpace || key == Key::U || key == Key::W) && pin {
            return KeyAction::ResetPin;
        }
        return KeyAction::Ignore;
    }
    match key {
        Key::Return => {
            return KeyAction::Exit(Event::UserOk);
        },
        Key::Escape => {
            return KeyAction::Exit(Event::UserAbort);
        },
        Key::BackSpace => {
            if pin {
                return KeyAction::DeletePin;
            }
            return KeyAction::Ignore;
        },
        Key::Delete => {
            return KeyAction::Ignore;
        },
        _ => {},
    }
    if !pin {
        return KeyAction::Ignore;
    }
    KeyAction::AppendText
}

/// A tracked touch point: its id and the hotspot it went down on.
#[derive(Debug, Clone, Copy, PartialEq, Eq, Structural)]
pub struct TouchPoint {
    pub id: i32,
    pub hotspot: HotSpot,
}

/// The touch points of a seat that went down on a hotspot and are still
/// over it.
pub struct TouchPoints {
    points: Vec<TouchPoint>,
}

impl View for TouchPoints {
    type V = Seq<TouchPoint>;

    closed spec fn view(&self) -> Seq<TouchPoint> {
        self.points@
    }
}

/// The position of the first touch point with id `id`.
pub open spec fn position_of(s: Seq<TouchPoint>, id: i32) -> Option<int> {
    if exists|i: int| 0 <= i < s.len() && s[i].id == id {
        Some(
            choose|i: int|
                0 <= i < s.len() && s[i].id == id && forall|j: int|
                    0 <= j < i ==> #[trigger] s[j].id != id,
        )
    } else {
        None
    }
}

impl TouchPoints {
    /// No touch point.
    pub fn new() -> (t: TouchPoints)
        ensures
            t@ == Seq::<TouchPoint>::empty(),
    {
        TouchPoints { points: Vec::new() }
    }

    /// The number of tracked touch points.
    pub fn len(&self) -> (n: usize)
        ensures
            n == self@.len(),
    {
        self.points.len()
    }

    fn find(&self, id: i32) -> (r: Option<usize>)
        ensures
            match r {
                Some(k) => position_of(self@, id) == Some(k as int) && k < self@.len(),
                None => position_of(self@, id) is None,
            },
    {
        let mut i: usize = 0;
        while i < self.points.len()
            invariant
                i <= self@.len(),
                self@ == self.points@,
                forall|j: int| 0 <= j < i ==> #[trigger] self@[j].id != id,
            decreases self@.len() - i,
        {
            if self.points[i].id == id {
                proof {
                    let k = position_of(self@, id)->0;
                    assert(self@[i as int].id == id);
                    if k < i {
                        assert(self@[k].id != id);
                    }
                    if k > i {
                        assert(self@[i as int].id != id);
                    }
                }
                return Some(i);
            }
            i = i + 1;
        }
        None
    }

    /// A touch went down: it is tracked when it went down on a hotspot.
    pub fn down(&mut self, id: i32, hotspot: Option<HotSpot>)
        ensures
            final(self)@ == match hotspot {
                Some(h) => old(self)@.push(TouchPoint { id, hotspot: h }),
                None => old(self)@,
            },
    {
        if let Some(h) = hotspot {
            self.points.push(TouchPoint { id, hotspot: h });
        }
    }

    /// A touch went up: the first touch point with its id stops being
    /// tracked, and the event of its hotspot is returned.
    pub fn up(&mut self, id: i32) -> (r: Option<Event>)
        ensures
            match position_of(old(self)@, id) {
                Some(k) => final(self)@ == old(self)@.remove(k) && r == Some(
                    effect_event(old(self)@[k].hotspot.effect),
                ),
                None => final(self)@ == old(self)@ && r is None,
            },
    {
        match self.find(id) {
            Some(k) => {
                let tp = self.points.remove(k);
                Some(tp.hotspot.act())
            },
            None => None,
        }
    }

    /// A touch moved: the first touch point with its id stops being
    /// tracked when it left its hotspot.
    pub fn motion(&mut self, id: i32, x: u32, y: u32)
        ensures
            match position_of(old(self)@, id) {
                Some(k) => final(self)@ == if spec_contains(old(self)@[k].hotspot, x, y) {
                    old(self)@
                } else {
                    old(self)@.remove(k)
                },
                None => final(self)@ == old(self)@,
            },
    {
        if let Some(k) = self.find(id) {
            if !self.points[k].hotspot.contains_point(x, y) {
                self.points.remove(k);
            }
        }
    }

    /// The touch sequence was cancelled: nothing is tracked any more.
    pub fn cancel(&mut self)
        ensures
            final(self)@ == Seq::<TouchPoint>::empty(),
    {
        self.points.clear();
    }
}

} // verus!
