use nowayprompt::frontend::wayland::shm::{
    cull_buffers, select_slot, validate_buffer_dimensions, BufferError, SlotDecision, SlotState,
    MAX_BUFFER_MULTIPLICITY,
};

fn pool_with(buffers: &[(u32, u32, bool)]) -> Vec<Option<SlotState>> {
    buffers
        .iter()
        .map(|&(width, height, busy)| {
            Some(SlotState {
                width,
                height,
                busy,
            })
        })
        .collect()
}

fn live(slots: &[Option<SlotState>]) -> usize {
    slots.iter().filter(|s| s.is_some()).count()
}

#[test]
fn reuse_idle_matching_slot() {
    let pool = pool_with(&[(100, 50, true), (100, 50, false)]);
    assert_eq!(select_slot(&pool, 100, 50), SlotDecision::Reuse(1));
}

#[test]
fn matching_beats_earlier_mismatched() {
    let pool = pool_with(&[(200, 80, false), (100, 50, false)]);
    assert_eq!(select_slot(&pool, 100, 50), SlotDecision::Reuse(1));
}

#[test]
fn reinit_idle_mismatched_slot() {
    let pool = pool_with(&[(100, 50, false)]);
    assert_eq!(select_slot(&pool, 200, 80), SlotDecision::Reinit(0));
}

#[test]
fn fill_free_slot_when_no_idle() {
    let mut pool = pool_with(&[(100, 50, true)]);
    pool.push(None);
    assert_eq!(select_slot(&pool, 100, 50), SlotDecision::FillFree(1));
}

#[test]
fn push_when_all_busy_no_free() {
    let pool = pool_with(&[(100, 50, true)]);
    assert_eq!(select_slot(&pool, 100, 50), SlotDecision::Push);
}

#[test]
fn busy_buffers_are_never_selected() {
    let pool = pool_with(&[(100, 50, true)]);
    assert_ne!(select_slot(&pool, 100, 50), SlotDecision::Reuse(0));
}

#[test]
fn cull_removes_idle_over_cap() {
    let mut pool = pool_with(&[(100, 50, false); 5]);
    cull_buffers(&mut pool);
    assert_eq!(live(&pool), MAX_BUFFER_MULTIPLICITY);
}

#[test]
fn cull_preserves_busy_buffers() {
    let mut pool = pool_with(&[
        (100, 50, true),
        (100, 50, false),
        (100, 50, false),
        (100, 50, false),
        (100, 50, false),
    ]);
    cull_buffers(&mut pool);
    assert!(pool[0].as_ref().is_some_and(|b| b.busy));
    assert_eq!(live(&pool), MAX_BUFFER_MULTIPLICITY);
}

#[test]
fn cull_noop_at_or_under_cap() {
    let mut pool = pool_with(&[(100, 50, false); 3]);
    cull_buffers(&mut pool);
    assert_eq!(live(&pool), 3);
}

#[test]
fn validate_rejects_zero_dimensions() {
    assert!(validate_buffer_dimensions(0, 100).is_err());
    assert!(validate_buffer_dimensions(100, 0).is_err());
    assert!(validate_buffer_dimensions(0, 0).is_err());
}

#[test]
fn validate_accepts_normal_dimensions() {
    let dims = validate_buffer_dimensions(100, 50).unwrap();
    assert_eq!(dims.stride, 400);
    assert_eq!(dims.size, 20_000);
    assert_eq!(dims.size_usize, 20_000);
    assert_eq!(dims.width_i, 100);
    assert_eq!(dims.height_i, 50);
    assert_eq!(dims.stride_i, 400);
    assert_eq!(dims.size_i, 20_000);
}

#[test]
fn validate_rejects_stride_overflow() {
    assert!(validate_buffer_dimensions(u32::MAX, 1).is_err());
    assert!(validate_buffer_dimensions(u32::MAX / 4 + 1, 1).is_err());
}

#[test]
fn validate_rejects_byte_size_overflow() {
    assert!(validate_buffer_dimensions(65536, u32::MAX).is_err());
}

#[test]
fn validate_rejects_exceeding_i32_width() {
    let w = 1;
    let h = i32::MAX as u32 + 1;
    assert!(validate_buffer_dimensions(w, h).is_err());
}

#[test]
fn validate_boundary_just_fits() {
    let dims = validate_buffer_dimensions(536_870_911, 1).unwrap();
    assert_eq!(dims.stride, 2_147_483_644);
    assert_eq!(dims.width_i, 536_870_911);
    assert_eq!(dims.height_i, 1);
    assert_eq!(dims.stride_i, 2_147_483_644);
    assert_eq!(dims.size_i, 2_147_483_644);
}

// --- further cases ---

#[test]
fn validate_error_kinds_and_messages() {
    assert_eq!(validate_buffer_dimensions(0, 5).unwrap_err(), BufferError::Zero);
    assert_eq!(
        validate_buffer_dimensions(536_870_912, 1).unwrap_err(),
        BufferError::Overflow
    );
    assert_eq!(BufferError::Zero.message(), "zero-sized buffer");
    assert_eq!(
        BufferError::Overflow.message(),
        "buffer dimensions overflow Wayland or address-space limits"
    );
}

#[test]
fn cull_frees_first_idle_in_order() {
    let mut pool = pool_with(&[
        (1, 1, false),
        (2, 2, true),
        (3, 3, false),
        (4, 4, true),
        (5, 5, false),
    ]);
    pool.push(Some(SlotState {
        width: 6,
        height: 6,
        busy: false,
    }));
    cull_buffers(&mut pool);
    // Six live, three over the cap: the first three idle ones go.
    assert_eq!(pool[0], None);
    assert_eq!(pool[1].unwrap().width, 2);
    assert_eq!(pool[2], None);
    assert_eq!(pool[3].unwrap().width, 4);
    assert_eq!(pool[4], None);
    assert_eq!(pool[5].unwrap().width, 6);
}

#[test]
fn cull_cannot_free_busy_over_cap() {
    let mut pool = pool_with(&[(1, 1, true); 5]);
    cull_buffers(&mut pool);
    assert_eq!(live(&pool), 5);
}
