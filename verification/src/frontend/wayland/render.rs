//! Layer-shell surface state: clickable hotspots and what activating one
//! means.
use vstd::prelude::*;

use crate::frontend::wayland::scale::{spec_physical_dim, Scale, ScaleMode};
use crate::frontend::Event;
use crate::text::{append_decimal, decimal_chars};

verus! {

/// What activating a hotspot does.
#[derive(Debug, Clone, Copy, PartialEq, Eq, Structural)]
pub enum HotSpotEffect {
    Cancel,
    NotOk,
    /// The OK button.
    Accept,
}

/// A clickable region.
#[derive(Debug, Clone, Copy, PartialEq, Eq, Structural)]
pub struct HotSpot {
    pub effect: HotSpotEffect,
    pub x: u32,
    pub y: u32,
    pub width: u32,
    pub height: u32,
}

/// `a + b`, saturating at `u32::MAX`.
pub open spec fn sat_add(a: u32, b: u32) -> int {
    if a + b > u32::MAX {
        u32::MAX as int
    } else {
        a + b
    }
}

/// Whether the point lies in the hotspot, edges included (the far edges
/// saturate at `u32::MAX`).
pub open spec fn spec_contains(h: HotSpot, x: u32, y: u32) -> bool {
    x >= h.x && x <= sat_add(h.x, h.width) && y >= h.y && y <= sat_add(h.y, h.height)
}

/// The event a hotspot's effect ends the prompt with.
pub open spec fn effect_event(e: HotSpotEffect) -> Event {
    match e {
        HotSpotEffect::Cancel => Event::UserAbort,
        HotSpotEffect::NotOk => Event::UserNotOk,
        HotSpotEffect::Accept => Event::UserOk,
    }
}

impl HotSpot {
    /// Whether the point lies in the hotspot ([`spec_contains`]).
    pub fn contains_point(&self, x: u32, y: u32) -> (r: bool)
        ensures
            r == spec_contains(*self, x, y),
    {
        x >= self.x && x <= self.x.saturating_add(self.width) && y >= self.y && y
            <= self.y.saturating_add(self.height)
    }

    /// The event activating this hotspot ends the prompt with.
    pub fn act(&self) -> (e: Event)
        ensures
            e == effect_event(self.effect),
    {
        match self.effect {
            HotSpotEffect::Cancel => Event::UserAbort,
            HotSpotEffect::NotOk => Event::UserNotOk,
            HotSpotEffect::Accept => Event::UserOk,
        }
    }
}

/// The layer-shell surface's layout state.
#[derive(Debug)]
pub struct Surface {
    pub configured: bool,
    pub width: u32,
    pub height: u32,
    pub scale: Scale,
    pub hotspots: Vec<HotSpot>,
}

/// Snapshot of a configured surface's render state: logical size, exact
/// scale, physical buffer size and logical hotspots.
#[derive(Debug)]
pub struct SurfaceInfo {
    /// Logical surface width (unscaled layout).
    pub logical_width: u32,
    /// Logical surface height (unscaled layout).
    pub logical_height: u32,
    /// Effective scale mode.
    pub scale_mode: ScaleMode,
    /// Scale numerator (N for integer, P for fractional over 120).
    pub scale_numerator: u32,
    /// Physical buffer width (logical times scale, rounded up).
    pub physical_width: u32,
    /// Physical buffer height (logical times scale, rounded up).
    pub physical_height: u32,
    /// Logical hotspot geometry (unaffected by scale).
    pub hotspots: Vec<HotSpot>,
}

impl Surface {
    /// A surface before its first configure: no size, scale 1, no
    /// hotspots.
    pub fn new() -> (s: Surface)
        ensures
            !s.configured && s.width == 0 && s.height == 0 && s.scale == Scale::Integer(1)
                && s.hotspots@.len() == 0,
    {
        Surface {
            configured: false,
            width: 0,
            height: 0,
            scale: Scale::one(),
            hotspots: Vec::new(),
        }
    }

    /// The render state of a configured surface; nothing before the first
    /// configure or when the physical size is not representable.
    pub fn info(&self) -> (r: Option<SurfaceInfo>)
        ensures
            !self.configured ==> r is None,
            self.configured ==> match (
                spec_physical_dim(self.width, self.scale.spec_numerator(), self.scale.spec_denominator()),
                spec_physical_dim(self.height, self.scale.spec_numerator(), self.scale.spec_denominator()),
            ) {
                (Some(w), Some(h)) => r matches Some(i) && i.logical_width == self.width
                    && i.logical_height == self.height && i.scale_mode == self.scale.spec_mode()
                    && i.scale_numerator == self.scale.spec_numerator() && i.physical_width == w
                    && i.physical_height == h && i.hotspots@ == self.hotspots@,
                _ => r is None,
            },
    {
        if !self.configured {
            return None;
        }
        let (w, h) = match self.scale.physical_size(self.width, self.height) {
            Ok(p) => p,
            Err(_) => {
                return None;
            },
        };
        let mut hotspots: Vec<HotSpot> = Vec::new();
        let mut i: usize = 0;
        while i < self.hotspots.len()
            invariant
                i <= self.hotspots@.len(),
                hotspots@ == self.hotspots@.take(i as int),
            decreases self.hotspots@.len() - i,
        {
            hotspots.push(self.hotspots[i]);
            assert(hotspots@ =~= self.hotspots@.take(i + 1));
            i = i + 1;
        }
        assert(self.hotspots@.take(i as int) =~= self.hotspots@);
        Some(
            SurfaceInfo {
                logical_width: self.width,
                logical_height: self.height,
                scale_mode: self.scale.mode(),
                scale_numerator: self.scale.numerator(),
                physical_width: w,
                physical_height: h,
                hotspots,
            },
        )
    }

    /// Releases the surface.
    pub fn deinit(self) {
    }

    /// The first hotspot containing the point, if any.
    pub fn hotspot_from_point(&self, x: u32, y: u32) -> (r: Option<&HotSpot>)
        ensures
            match r {
                Some(h) => exists|i: int|
                    0 <= i < self.hotspots@.len() && self.hotspots@[i] == *h && spec_contains(
                        *h,
                        x,
                        y,
                    ) && forall|j: int|
                        0 <= j < i ==> !spec_contains(#[trigger] self.hotspots@[j], x, y),
                None => forall|i: int|
                    0 <= i < self.hotspots@.len() ==> !spec_contains(#[trigger] self.hotspots@[i], x, y),
            },
    {
        let mut i: usize = 0;
        while i < self.hotspots.len()
            invariant
                i <= self.hotspots@.len(),
                forall|j: int| 0 <= j < i ==> !spec_contains(#[trigger] self.hotspots@[j], x, y),
            decreases self.hotspots@.len() - i,
        {
            if self.hotspots[i].contains_point(x, y) {
                return Some(&self.hotspots[i]);
            }
            i = i + 1;
        }
        None
    }
}

/// The event a pointer release ends the prompt with: the pressed hotspot's,
/// when the pointer is released over that same hotspot.
pub fn release_event(pressed: Option<HotSpot>, current: Option<HotSpot>) -> (r: Option<Event>)
    ensures
        r == (match (pressed, current) {
            (Some(p), Some(c)) => if p == c {
                Some(effect_event(p.effect))
            } else {
                None
            },
            _ => None,
        }),
{
    match (pressed, current) {
        (Some(p), Some(c)) => {
            if p == c {
                Some(p.act())
            } else {
                None
            }
        },
        _ => None,
    }
}

/// The name of a hotspot effect in reports.
pub open spec fn effect_name(e: HotSpotEffect) -> Seq<char> {
    match e {
        HotSpotEffect::Cancel => "Cancel"@,
        HotSpotEffect::NotOk => "NotOk"@,
        HotSpotEffect::Accept => "Ok"@,
    }
}

/// One hotspot in a report: `(Effect, x, y, w, h)`.
pub open spec fn hotspot_text(h: HotSpot) -> Seq<char> {
    "("@ + effect_name(h.effect) + ", "@ + decimal_chars(h.x as nat) + ", "@ + decimal_chars(
        h.y as nat,
    ) + ", "@ + decimal_chars(h.width as nat) + ", "@ + decimal_chars(h.height as nat) + ")"@
}

/// The hotspots of a report, separated by `, `.
pub open spec fn hotspots_text(hs: Seq<HotSpot>) -> Seq<char>
    decreases hs.len(),
{
    if hs.len() == 0 {
        Seq::empty()
    } else if hs.len() == 1 {
        hotspot_text(hs[0])
    } else {
        hotspots_text(hs.drop_last()) + ", "@ + hotspot_text(hs.last())
    }
}

fn effect_str(e: HotSpotEffect) -> (r: &'static str)
    ensures
        r@ == effect_name(e),
{
    match e {
        HotSpotEffect::Cancel => "Cancel",
        HotSpotEffect::NotOk => "NotOk",
        HotSpotEffect::Accept => "Ok",
    }
}

fn append_hotspot(s: &mut String, h: &HotSpot)
    ensures
        final(s)@ == old(s)@ + hotspot_text(*h),
{
    s.append("(");
    s.append(effect_str(h.effect));
    s.append(", ");
    append_decimal(s, h.x as u64);
    s.append(", ");
    append_decimal(s, h.y as u64);
    s.append(", ");
    append_decimal(s, h.width as u64);
    s.append(", ");
    append_decimal(s, h.height as u64);
    s.append(")");
    assert(final(s)@ =~= old(s)@ + hotspot_text(*h));
}

/// Formats hotspots as `(Effect, x, y, w, h)` tuples separated by `, `.
pub fn format_hotspots(hotspots: &[HotSpot]) -> (t: String)
    ensures
        t@ == hotspots_text(hotspots@),
{
    let mut t = String::new();
    let mut i: usize = 0;
    assert(hotspots@.take(0) =~= Seq::<HotSpot>::empty());
    proof {
        reveal_strlit("");
    }
    while i < hotspots.len()
        invariant
            i <= hotspots@.len(),
            t@ == hotspots_text(hotspots@.take(i as int)),
        decreases hotspots@.len() - i,
    {
        if i > 0 {
            t.append(", ");
        }
        append_hotspot(&mut t, &hotspots[i]);
        proof {
            let nxt = hotspots@.take(i + 1);
            assert(nxt.drop_last() =~= hotspots@.take(i as int));
            if i == 0 {
                assert(t@ =~= hotspot_text(nxt[0]));
            }
        }
        i = i + 1;
    }
    assert(hotspots@.take(i as int) =~= hotspots@);
    t
}

/// The render state line of a report:
/// `<W>x<H> mode=<integer|fractional> scale=<S> phys=<PW>x<PH>`.
pub open spec fn rendered_text(info: SurfaceInfo) -> Seq<char> {
    decimal_chars(info.logical_width as nat) + "x"@ + decimal_chars(info.logical_height as nat)
        + " mode="@ + match info.scale_mode {
        ScaleMode::Integer => "integer"@,
        ScaleMode::Fractional => "fractional"@,
    } + " scale="@ + decimal_chars(info.scale_numerator as nat) + " phys="@ + decimal_chars(
        info.physical_width as nat,
    ) + "x"@ + decimal_chars(info.physical_height as nat)
}

/// Formats the render state line of a report ([`rendered_text`]).
pub fn format_rendered(info: &SurfaceInfo) -> (t: String)
    ensures
        t@ == rendered_text(*info),
{
    let mut t = String::new();
    proof {
        reveal_strlit("");
    }
    append_decimal(&mut t, info.logical_width as u64);
    t.append("x");
    append_decimal(&mut t, info.logical_height as u64);
    t.append(" mode=");
    match info.scale_mode {
        ScaleMode::Integer => t.append("integer"),
        ScaleMode::Fractional => t.append("fractional"),
    }
    t.append(" scale=");
    append_decimal(&mut t, info.scale_numerator as u64);
    t.append(" phys=");
    append_decimal(&mut t, info.physical_width as u64);
    t.append("x");
    append_decimal(&mut t, info.physical_height as u64);
    assert(t@ =~= rendered_text(*info));
    t
}

} // verus!
