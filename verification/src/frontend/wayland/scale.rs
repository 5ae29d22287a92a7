//! Exact scale representation and checked logical-to-physical arithmetic.
//!
//! Wayland expresses scales as exact rationals: core `wl_output.scale`
//! carries a positive integer, and `wp_fractional_scale_v1.preferred_scale`
//! carries a numerator over the fixed denominator 120. Everything here stays
//! in integers.
use vstd::prelude::*;

use crate::frontend::FrontendError;

verus! {

/// Fixed denominator of the fractional-scale protocol.
pub const FRACTIONAL_DENOMINATOR: u32 = 120;

/// The protocol mode that produced a scale value, used for change detection.
#[derive(Debug, Clone, Copy, PartialEq, Eq, Structural)]
pub enum ScaleMode {
    Integer,
    Fractional,
}

/// An exact scale factor: `Integer(N)` is `N / 1`, `Fractional(P)` is
/// `P / 120`.
#[derive(Debug, Clone, Copy, PartialEq, Eq, Structural)]
pub enum Scale {
    /// Core integer buffer scale `N`.
    Integer(u32),
    /// Fractional-scale numerator `P` over [`FRACTIONAL_DENOMINATOR`].
    Fractional(u32),
}

/// Ceiling of `logical * num / den` when every intermediate step fits in a
/// `u32` and the result is positive; `None` otherwise.
pub open spec fn spec_physical_dim(logical: u32, num: u32, den: u32) -> Option<u32> {
    let scaled = logical as int * num as int;
    if scaled > u32::MAX as int || scaled + (den as int - 1) > u32::MAX as int {
        None
    } else if (scaled + (den as int - 1)) / (den as int) == 0 {
        None
    } else {
        Some(((scaled + (den as int - 1)) / (den as int)) as u32)
    }
}

impl Scale {
    /// The 1x default used until an output or preferred scale is known.
    pub fn one() -> (s: Scale)
        ensures
            s == Scale::Integer(1),
    {
        Scale::Integer(1)
    }

    pub open spec fn spec_mode(self) -> ScaleMode {
        match self {
            Scale::Integer(_) => ScaleMode::Integer,
            Scale::Fractional(_) => ScaleMode::Fractional,
        }
    }

    pub open spec fn spec_numerator(self) -> u32 {
        match self {
            Scale::Integer(n) => n,
            Scale::Fractional(p) => p,
        }
    }

    pub open spec fn spec_denominator(self) -> u32 {
        match self {
            Scale::Integer(_) => 1,
            Scale::Fractional(_) => FRACTIONAL_DENOMINATOR,
        }
    }

    /// The protocol mode, for change detection.
    pub fn mode(&self) -> (m: ScaleMode)
        ensures
            m == self.spec_mode(),
    {
        match self {
            Scale::Integer(_) => ScaleMode::Integer,
            Scale::Fractional(_) => ScaleMode::Fractional,
        }
    }

    /// The numerator (N for integer mode, P for fractional mode).
    pub fn numerator(&self) -> (n: u32)
        ensures
            n == self.spec_numerator(),
    {
        match self {
            Scale::Integer(n) => *n,
            Scale::Fractional(p) => *p,
        }
    }

    /// The denominator (1 for integer mode, 120 for fractional mode).
    pub fn denominator(&self) -> (d: u32)
        ensures
            d == self.spec_denominator(),
            d >= 1,
    {
        match self {
            Scale::Integer(_) => 1,
            Scale::Fractional(_) => FRACTIONAL_DENOMINATOR,
        }
    }

    /// Physical extent `ceil(logical * numerator / denominator)` with checked
    /// arithmetic. Overflow of the product or of the rounding addition, and a
    /// zero result, are `FrontendError::Init`.
    pub fn physical_dim(&self, logical: u32) -> (r: Result<u32, FrontendError>)
        ensures
            match spec_physical_dim(logical, self.spec_numerator(), self.spec_denominator()) {
                Some(p) => r matches Ok(v) && v == p,
                None => r matches Err(FrontendError::Init(_)),
            },
    {
        let num = self.numerator();
        let den = self.denominator();
        let scaled = match logical.checked_mul(num) {
            Some(s) => s,
            None => {
                return Err(FrontendError::Init("physical dimension overflow".to_string()));
            },
        };
        let rounded = match scaled.checked_add(den - 1) {
            Some(s) => s,
            None => {
                return Err(FrontendError::Init("physical dimension overflow".to_string()));
            },
        };
        let phys = rounded / den;
        if phys == 0 {
            return Err(FrontendError::Init("zero physical dimension".to_string()));
        }
        Ok(phys)
    }

    /// Physical buffer `(width, height)` from logical dimensions; the width
    /// is checked first.
    pub fn physical_size(&self, logical_width: u32, logical_height: u32) -> (r: Result<
        (u32, u32),
        FrontendError,
    >)
        ensures
            match (
                spec_physical_dim(logical_width, self.spec_numerator(), self.spec_denominator()),
                spec_physical_dim(logical_height, self.spec_numerator(), self.spec_denominator()),
            ) {
                (Some(w), Some(h)) => r matches Ok(v) && v == (w, h),
                _ => r matches Err(FrontendError::Init(_)),
            },
    {
        let w = self.physical_dim(logical_width)?;
        let h = self.physical_dim(logical_height)?;
        Ok((w, h))
    }
}

/// The largest positive value of `scales`, or 1 when none is positive.
pub open spec fn max_positive_or_one(scales: Seq<u32>) -> u32
    decreases scales.len(),
{
    if scales.len() == 0 {
        1
    } else {
        let rest = max_positive_or_one(scales.drop_last());
        let last = scales.last();
        if last > 0 && (last > rest || !exists_positive(scales.drop_last())) {
            last
        } else {
            rest
        }
    }
}

/// Whether some value of `scales` is positive.
pub open spec fn exists_positive(scales: Seq<u32>) -> bool {
    exists|i: int| 0 <= i < scales.len() && scales[i] > 0
}

/// The effective scale a surface uses: the fractional preferred scale when
/// fractional scaling is enabled and a preference is known, otherwise the
/// highest positive integer scale among entered outputs, defaulting to 1.
pub open spec fn spec_effective_scale(
    fractional_enabled: bool,
    fractional_preferred: Option<u32>,
    entered_scales: Seq<u32>,
) -> Scale {
    if fractional_enabled && fractional_preferred is Some {
        Scale::Fractional(fractional_preferred->0)
    } else {
        Scale::Integer(max_positive_or_one(entered_scales))
    }
}

/// Pure effective-scale decision from fractional availability, the latest
/// `preferred_scale` numerator and the integer scales of the entered outputs
/// (0 for an output that has not reported one).
pub fn compute_effective_scale(
    fractional_enabled: bool,
    fractional_preferred: Option<u32>,
    entered_scales: &[u32],
) -> (s: Scale)
    ensures
        s == spec_effective_scale(fractional_enabled, fractional_preferred, entered_scales@),
{
    if fractional_enabled {
        if let Some(p) = fractional_preferred {
            return Scale::Fractional(p);
        }
    }
    let mut best: u32 = 1;
    let mut found = false;
    let mut i: usize = 0;
    while i < entered_scales.len()
        invariant
            i <= entered_scales@.len(),
            found == exists_positive(entered_scales@.take(i as int)),
            best == max_positive_or_one(entered_scales@.take(i as int)),
        decreases entered_scales@.len() - i,
    {
        let s = entered_scales[i];
        proof {
            let pre = entered_scales@.take(i as int);
            let nxt = entered_scales@.take(i + 1);
            assert(nxt.drop_last() =~= pre);
            assert(nxt.last() == s);
            if s > 0 {
                assert(nxt[i as int] == s);
            }
            if exists_positive(nxt) && !exists_positive(pre) {
                let k = choose|k: int| 0 <= k < nxt.len() && nxt[k] > 0;
                if k < i {
                    assert(pre[k] == nxt[k]);
                }
            }
            if exists_positive(pre) {
                let k = choose|k: int| 0 <= k < pre.len() && pre[k] > 0;
                assert(nxt[k] == pre[k]);
            }
        }
        if s > 0 && (s > best || !found) {
            best = s;
        }
        if s > 0 {
            found = true;
        }
        i = i + 1;
    }
    proof {
        assert(entered_scales@.take(i as int) =~= entered_scales@);
    }
    Scale::Integer(best)
}

} // verus!
