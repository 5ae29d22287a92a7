//! Shared-memory buffer rules: the validation of buffer dimensions, and the
//! slot arena's choice of a buffer and culling of idle ones.
use vstd::prelude::*;

verus! {

/// Maximum buffers per surface.
pub const MAX_BUFFER_MULTIPLICITY: usize = 3;

/// Why buffer dimensions were refused.
#[derive(Debug, Clone, Copy, PartialEq, Eq, Structural)]
pub enum BufferError {
    /// A dimension is zero.
    Zero,
    /// The stride or byte size overflows Wayland's signed 32-bit arguments
    /// or the address space.
    Overflow,
}

impl BufferError {
    /// The human-readable description of the error.
    pub fn message(&self) -> (m: &'static str)
        ensures
            m@ == match *self {
                BufferError::Zero => "zero-sized buffer"@,
                BufferError::Overflow => "buffer dimensions overflow Wayland or address-space limits"@,
            },
    {
        match self {
            BufferError::Zero => "zero-sized buffer",
            BufferError::Overflow => "buffer dimensions overflow Wayland or address-space limits",
        }
    }
}

/// Validated SHM buffer dimensions: the 4-byte Argb8888 stride, the total
/// byte size, and the signed 32-bit Wayland request arguments.
#[derive(Debug, Clone, Copy, PartialEq, Eq, Structural)]
pub struct ValidatedDims {
    pub stride: u32,
    pub size: u32,
    pub size_usize: usize,
    pub width_i: i32,
    pub height_i: i32,
    pub stride_i: i32,
    pub size_i: i32,
}

/// Validates SHM buffer dimensions: both positive, and the byte size
/// `4 * width * height` within Wayland's signed 32-bit request arguments
/// (which bounds the width, height and stride too). Zero dimensions are
/// reported before an overflow.
pub fn validate_buffer_dimensions(width: u32, height: u32) -> (r: Result<ValidatedDims, BufferError>)
    ensures
        (width == 0 || height == 0) ==> r == Err::<ValidatedDims, BufferError>(BufferError::Zero),
        width > 0 && height > 0 && 4 * width * height > i32::MAX ==> r == Err::<
            ValidatedDims,
            BufferError,
        >(BufferError::Overflow),
        width > 0 && height > 0 && 4 * width * height <= i32::MAX ==> r == Ok::<
            ValidatedDims,
            BufferError,
        >(
            ValidatedDims {
                stride: (4 * width) as u32,
                size: (4 * width * height) as u32,
                size_usize: (4 * width * height) as usize,
                width_i: width as i32,
                height_i: height as i32,
                stride_i: (4 * width) as i32,
                size_i: (4 * width * height) as i32,
            },
        ),
{
    if width == 0 || height == 0 {
        return Err(BufferError::Zero);
    }
    let stride = match width.checked_mul(4) {
        Some(s) => s,
        None => {
            proof {
                assert(4 * width * height >= 4 * width) by (nonlinear_arith)
                    requires
                        height >= 1,
                ;
            }
            return Err(BufferError::Overflow);
        },
    };
    let size = match stride.checked_mul(height) {
        Some(s) => s,
        None => {
            proof {
                assert(stride * height == 4 * width * height) by (nonlinear_arith)
                    requires
                        stride == 4 * width,
                ;
            }
            return Err(BufferError::Overflow);
        },
    };
    proof {
        assert(stride * height == 4 * width * height) by (nonlinear_arith)
            requires
                stride == 4 * width,
        ;
        assert(4 * width * height >= 4 * width) by (nonlinear_arith)
            requires
                height >= 1,
        ;
        assert(4 * width * height >= height) by (nonlinear_arith)
            requires
                width >= 1,
        ;
    }
    let size_usize = size as usize;
    if size > 0x7fff_ffff {
        return Err(BufferError::Overflow);
    }
    Ok(
        ValidatedDims {
            stride,
            size,
            size_usize,
            width_i: width as i32,
            height_i: height as i32,
            stride_i: stride as i32,
            size_i: size as i32,
        },
    )
}

/// A buffer slot's state as the arena sees it: the buffer's size and
/// whether the compositor still holds it.
#[derive(Debug, Clone, Copy, PartialEq, Eq, Structural)]
pub struct SlotState {
    pub width: u32,
    pub height: u32,
    pub busy: bool,
}

/// The arena's choice of a slot for the next buffer.
#[derive(Debug, Clone, Copy, PartialEq, Eq, Structural)]
pub enum SlotDecision {
    /// Reuse an idle buffer of matching size (no re-allocation).
    Reuse(usize),
    /// Re-initialise an idle buffer of another size.
    Reinit(usize),
    /// Allocate into an existing free slot.
    FillFree(usize),
    /// Push a new slot.
    Push,
}

/// Whether slot `s` holds an idle buffer.
pub open spec fn idle(s: Option<SlotState>) -> bool {
    s matches Some(b) && !b.busy
}

/// Whether slot `s` holds an idle buffer of size `width` x `height`.
pub open spec fn idle_match(s: Option<SlotState>, width: u32, height: u32) -> bool {
    s matches Some(b) && !b.busy && b.width == width && b.height == height
}

/// The slot for a buffer of `width` x `height`: the first idle buffer of
/// that size, else the first idle buffer, else the first free slot, else a
/// new slot. A busy buffer is never chosen.
pub fn select_slot(slots: &[Option<SlotState>], width: u32, height: u32) -> (d: SlotDecision)
    ensures
        match d {
            SlotDecision::Reuse(i) => i < slots@.len() && idle_match(slots@[i as int], width, height)
                && forall|j: int| 0 <= j < i ==> !idle_match(#[trigger] slots@[j], width, height),
            SlotDecision::Reinit(i) => i < slots@.len() && idle(slots@[i as int]) && (forall|j: int|
                0 <= j < slots@.len() ==> !idle_match(#[trigger] slots@[j], width, height)) && (
            forall|j: int| 0 <= j < i ==> !idle(#[trigger] slots@[j])),
            SlotDecision::FillFree(i) => i < slots@.len() && slots@[i as int] is None && (forall|
                j: int,
            | 0 <= j < slots@.len() ==> !idle(#[trigger] slots@[j])) && (forall|j: int|
                0 <= j < i ==> #[trigger] slots@[j] is Some),
            SlotDecision::Push => forall|j: int|
                0 <= j < slots@.len() ==> (#[trigger] slots@[j] matches Some(b) && b.busy),
        },
{
    let mut first_idle: Option<usize> = None;
    let mut first_free: Option<usize> = None;
    let mut i: usize = 0;
    while i < slots.len()
        invariant
            i <= slots@.len(),
            forall|j: int| 0 <= j < i ==> !idle_match(#[trigger] slots@[j], width, height),
            match first_idle {
                Some(k) => k < i && idle(slots@[k as int]) && forall|j: int|
                    0 <= j < k ==> !idle(#[trigger] slots@[j]),
                None => forall|j: int| 0 <= j < i ==> !idle(#[trigger] slots@[j]),
            },
            match first_free {
                Some(k) => k < i && slots@[k as int] is None && forall|j: int|
                    0 <= j < k ==> #[trigger] slots@[j] is Some,
                None => forall|j: int| 0 <= j < i ==> #[trigger] slots@[j] is Some,
            },
        decreases slots@.len() - i,
    {
        match slots[i] {
            Some(b) => {
                if !b.busy {
                    if b.width == width && b.height == height {
                        return SlotDecision::Reuse(i);
                    }
                    if first_idle.is_none() {
                        first_idle = Some(i);
                    }
                }
            },
            None => {
                if first_free.is_none() {
                    first_free = Some(i);
                }
            },
        }
        i = i + 1;
    }
    if let Some(k) = first_idle {
        SlotDecision::Reinit(k)
    } else if let Some(k) = first_free {
        SlotDecision::FillFree(k)
    } else {
        SlotDecision::Push
    }
}

/// The number of slots holding a buffer.
pub open spec fn live_count(s: Seq<Option<SlotState>>) -> nat
    decreases s.len(),
{
    if s.len() == 0 {
        0
    } else {
        live_count(s.drop_last()) + if s.last() is Some {
            1nat
        } else {
            0nat
        }
    }
}

/// Freeing, in slot order, the first `overhead` idle buffers of `s`.
pub open spec fn cull_first(s: Seq<Option<SlotState>>, overhead: nat) -> Seq<Option<SlotState>>
    decreases s.len(),
{
    if s.len() == 0 || overhead == 0 {
        s
    } else if idle(s[0]) {
        seq![None] + cull_first(s.drop_first(), (overhead - 1) as nat)
    } else {
        seq![s[0]] + cull_first(s.drop_first(), overhead)
    }
}

/// The slots after culling: when more than [`MAX_BUFFER_MULTIPLICITY`]
/// buffers are live, the first idle ones are freed until the excess is gone
/// or no idle buffer is left.
pub open spec fn spec_cull(s: Seq<Option<SlotState>>) -> Seq<Option<SlotState>> {
    if live_count(s) <= MAX_BUFFER_MULTIPLICITY {
        s
    } else {
        cull_first(s, (live_count(s) - MAX_BUFFER_MULTIPLICITY) as nat)
    }
}

proof fn lemma_live_push(s: Seq<Option<SlotState>>, x: Option<SlotState>)
    ensures
        live_count(s.push(x)) == live_count(s) + if x is Some {
            1nat
        } else {
            0nat
        },
{
    assert(s.push(x).drop_last() =~= s);
}

/// Frees idle buffers while more than [`MAX_BUFFER_MULTIPLICITY`] are live
/// ([`spec_cull`]).
pub fn cull_buffers(slots: &mut Vec<Option<SlotState>>)
    ensures
        final(slots)@ == spec_cull(old(slots)@),
{
    let n = slots.len();
    let mut live: usize = 0;
    let mut i: usize = 0;
    while i < n
        invariant
            i <= n == slots@.len(),
            slots@ == old(slots)@,
            live as nat == live_count(slots@.take(i as int)),
            live <= i,
        decreases n - i,
    {
        proof {
            lemma_live_push(slots@.take(i as int), slots@[i as int]);
            assert(slots@.take(i as int).push(slots@[i as int]) =~= slots@.take(i + 1));
        }
        if slots[i].is_some() {
            live = live + 1;
        }
        i = i + 1;
    }
    assert(slots@.take(n as int) =~= slots@);
    if live <= MAX_BUFFER_MULTIPLICITY {
        return ;
    }
    let mut overhead: usize = live - MAX_BUFFER_MULTIPLICITY;
    let ghost whole = cull_first(old(slots)@, overhead as nat);
    let mut i: usize = 0;
    assert(old(slots)@.skip(0) =~= old(slots)@);
    assert(slots@.take(0) + cull_first(old(slots)@.skip(0), overhead as nat) =~= whole);
    while i < n && overhead > 0
        invariant
            i <= n == slots@.len() == old(slots)@.len(),
            slots@.skip(i as int) == old(slots)@.skip(i as int),
            slots@.take(i as int) + cull_first(old(slots)@.skip(i as int), overhead as nat) == whole,
        decreases n - i,
    {
        let ghost rest = old(slots)@.skip(i as int);
        proof {
            assert(rest[0] == slots@[i as int]);
            assert(rest.drop_first() =~= old(slots)@.skip(i + 1));
        }
        let idle_here = match slots[i] {
            Some(b) => !b.busy,
            None => false,
        };
        let ghost before = slots@;
        if idle_here {
            slots.set(i, None);
            overhead = overhead - 1;
            proof {
                assert(slots@.take(i + 1) =~= before.take(i as int).push(None));
                assert(before.take(i as int).push(None) + cull_first(
                    old(slots)@.skip(i + 1),
                    overhead as nat,
                ) =~= before.take(i as int) + (seq![None] + cull_first(
                    rest.drop_first(),
                    overhead as nat,
                )));
            }
        } else {
            proof {
                assert(slots@.take(i + 1) =~= before.take(i as int).push(rest[0]));
                assert(before.take(i as int).push(rest[0]) + cull_first(
                    old(slots)@.skip(i + 1),
                    overhead as nat,
                ) =~= before.take(i as int) + (seq![rest[0]] + cull_first(
                    rest.drop_first(),
                    overhead as nat,
                )));
            }
        }
        proof {
            assert(slots@.skip(i + 1) =~= old(slots)@.skip(i + 1));
        }
        i = i + 1;
    }
    proof {
        if i == n {
            assert(old(slots)@.skip(i as int) =~= Seq::<Option<SlotState>>::empty());
            assert(slots@.skip(i as int) =~= Seq::<Option<SlotState>>::empty());
        }
        assert(slots@ =~= slots@.take(i as int) + slots@.skip(i as int));
    }
}

/// The number of slots holding an idle buffer.
pub open spec fn idle_count(s: Seq<Option<SlotState>>) -> nat
    decreases s.len(),
{
    if s.len() == 0 {
        0
    } else {
        idle_count(s.drop_last()) + if idle(s.last()) {
            1nat
        } else {
            0nat
        }
    }
}

proof fn lemma_counts_front(x: Option<SlotState>, s: Seq<Option<SlotState>>)
    ensures
        live_count(seq![x] + s) == live_count(s) + if x is Some {
            1nat
        } else {
            0nat
        },
        idle_count(seq![x] + s) == idle_count(s) + if idle(x) {
            1nat
        } else {
            0nat
        },
    decreases s.len(),
{
    let xs = seq![x] + s;
    if s.len() == 0 {
        assert(xs.drop_last() =~= Seq::<Option<SlotState>>::empty());
        assert(xs.last() == x);
        assert(live_count(xs) == live_count(xs.drop_last()) + if xs.last() is Some {
            1nat
        } else {
            0nat
        });
        assert(idle_count(xs) == idle_count(xs.drop_last()) + if idle(xs.last()) {
            1nat
        } else {
            0nat
        });
    } else {
        lemma_counts_front(x, s.drop_last());
        assert(xs.drop_last() =~= seq![x] + s.drop_last());
        assert(xs.last() == s.last());
    }
}

proof fn lemma_cull_first(s: Seq<Option<SlotState>>, k: nat)
    ensures
        cull_first(s, k).len() == s.len(),
        forall|i: int|
            0 <= i < s.len() ==> (#[trigger] cull_first(s, k)[i] == s[i] || (idle(s[i])
                && cull_first(s, k)[i] is None)),
        live_count(cull_first(s, k)) == live_count(s) - (if k < idle_count(s) {
            k
        } else {
            idle_count(s)
        }),
        idle_count(s) <= live_count(s),
    decreases s.len(),
{
    if s.len() == 0 {
    } else {
        let t = s.drop_first();
        assert(s =~= seq![s[0]] + t);
        lemma_counts_front(s[0], t);
        if k == 0 {
            lemma_cull_first(t, k);
        } else if idle(s[0]) {
            lemma_cull_first(t, (k - 1) as nat);
            lemma_counts_front(None, cull_first(t, (k - 1) as nat));
            assert forall|i: int| 0 <= i < s.len() implies (#[trigger] cull_first(s, k)[i] == s[i]
                || (idle(s[i]) && cull_first(s, k)[i] is None)) by {
                if i > 0 {
                    assert(cull_first(s, k)[i] == cull_first(t, (k - 1) as nat)[i - 1]);
                }
            }
        } else {
            lemma_cull_first(t, k);
            lemma_counts_front(s[0], cull_first(t, k));
            assert forall|i: int| 0 <= i < s.len() implies (#[trigger] cull_first(s, k)[i] == s[i]
                || (idle(s[i]) && cull_first(s, k)[i] is None)) by {
                if i > 0 {
                    assert(cull_first(s, k)[i] == cull_first(t, k)[i - 1]);
                }
            }
        }
    }
}

/// Culling only frees idle buffers, keeps every busy one and the slot
/// layout, and leaves exactly [`MAX_BUFFER_MULTIPLICITY`] buffers live
/// when more were live, unless only busy buffers remain above that count.
pub proof fn law_cull_frees_only_idle(s: Seq<Option<SlotState>>)
    ensures
        spec_cull(s).len() == s.len(),
        forall|i: int|
            0 <= i < s.len() ==> (#[trigger] spec_cull(s)[i] == s[i] || (idle(s[i])
                && spec_cull(s)[i] is None)),
        live_count(s) <= MAX_BUFFER_MULTIPLICITY ==> spec_cull(s) == s,
        live_count(s) > MAX_BUFFER_MULTIPLICITY ==> live_count(spec_cull(s))
            >= MAX_BUFFER_MULTIPLICITY,
        live_count(s) > MAX_BUFFER_MULTIPLICITY && live_count(spec_cull(s))
            > MAX_BUFFER_MULTIPLICITY ==> live_count(spec_cull(s)) == live_count(s) - idle_count(s),
{
    if live_count(s) > MAX_BUFFER_MULTIPLICITY {
        lemma_cull_first(s, (live_count(s) - MAX_BUFFER_MULTIPLICITY) as nat);
    }
}

} // verus!
