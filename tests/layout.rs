use disk_mpmc::layout::{
    classify_slot, counter_delta, frame_fits_page, plan_push, salt_offset, split_counter, Geometry,
    PushPlan, SlotState, MAX_BYTES_PER_PAGE, MAX_MESSAGES_PER_PAGE, TERMINATOR,
};

#[test]
fn standard_geometry() {
    let g = Geometry::standard();
    assert_eq!(g.max_messages, 65535);
    assert_eq!(g.max_bytes, 65535 * 2048);
    assert_eq!(MAX_BYTES_PER_PAGE, MAX_MESSAGES_PER_PAGE * 2048);
}

#[test]
fn counter_halves() {
    assert_eq!(split_counter(0), (0, 0));
    assert_eq!(split_counter((7u64 << 32) | 3), (7, 3));
    assert_eq!(split_counter(u64::MAX), (u32::MAX, u32::MAX));
}

#[test]
fn counter_delta_reserves_one_slot() {
    assert_eq!(counter_delta(0), 1);
    assert_eq!(counter_delta(16), (16u64 << 32) + 1);
    assert_eq!(counter_delta(u32::MAX), ((u32::MAX as u64) << 32) + 1);
}

#[test]
fn reservations_are_disjoint() {
    let lens: [u32; 5] = [9, 4, 120, 5, 33];
    let mut counter: u64 = 0;
    let mut seen: Vec<(u32, u32, u32)> = Vec::new();
    for len in lens {
        let (wi, c) = split_counter(counter);
        seen.push((wi, c, len));
        counter = counter.wrapping_add(counter_delta(len));
    }
    for (i, a) in seen.iter().enumerate() {
        assert_eq!(a.1 as usize, i);
        for b in &seen[i + 1..] {
            assert_ne!(a.1, b.1);
            assert!(a.0 + a.2 <= b.0);
        }
    }
    assert_eq!(seen[2].0, 13);
    assert_eq!(split_counter(counter), (171, 5));
}

#[test]
fn slot_cells() {
    let b = MAX_BYTES_PER_PAGE;
    assert_eq!(classify_slot(0, b), SlotState::Unpublished);
    assert_eq!(classify_slot(1, b), SlotState::Published(0));
    assert_eq!(classify_slot(5, b), SlotState::Published(4));
    assert_eq!(classify_slot(b - 1, b), SlotState::Published(b - 2));
    assert_eq!(classify_slot(b, b), SlotState::Terminated);
    assert_eq!(classify_slot(TERMINATOR, b), SlotState::Terminated);
    assert_eq!(salt_offset(0, b), 1);
    assert_eq!(salt_offset(4, b), 5);
}

#[test]
fn byte_exhaustion_plan() {
    // four slots of sixteen bytes each; every frame is twelve bytes plus the prefix
    let g = Geometry { max_messages: 4, max_bytes: 64 };
    let mut counter: u64 = 0;
    let mut plans = Vec::new();
    for _ in 0..4 {
        let (wi, c) = split_counter(counter);
        plans.push(plan_push(wi, c, 16, g));
        counter = counter.wrapping_add(counter_delta(16));
    }
    assert_eq!(
        plans,
        vec![
            PushPlan::Write { slot: 0, offset: 0 },
            PushPlan::Write { slot: 1, offset: 16 },
            PushPlan::Write { slot: 2, offset: 32 },
            PushPlan::BytesExhausted { slot: 3 },
        ]
    );
    assert_eq!(classify_slot(TERMINATOR, g.max_bytes), SlotState::Terminated);
}

#[test]
fn slot_exhaustion_plan() {
    let g = Geometry { max_messages: 4, max_bytes: 512 };
    assert_eq!(plan_push(0, 3, 5, g), PushPlan::Write { slot: 3, offset: 0 });
    assert_eq!(plan_push(20, 4, 5, g), PushPlan::SlotsExhausted);
    assert_eq!(plan_push(u32::MAX, 9, u32::MAX, g), PushPlan::SlotsExhausted);
    assert_eq!(plan_push(u32::MAX, 0, u32::MAX, g), PushPlan::BytesExhausted { slot: 0 });
    assert_eq!(plan_push(506, 1, 5, g), PushPlan::Write { slot: 1, offset: 506 });
    assert_eq!(plan_push(507, 1, 5, g), PushPlan::BytesExhausted { slot: 1 });
    assert_eq!(plan_push(508, 1, 4, g), PushPlan::BytesExhausted { slot: 1 });
}

#[test]
fn page_fit() {
    assert!(frame_fits_page(0));
    assert!(frame_fits_page((MAX_BYTES_PER_PAGE - 5) as usize));
    assert!(!frame_fits_page((MAX_BYTES_PER_PAGE - 4) as usize));
    assert!(!frame_fits_page(usize::MAX));
}

#[test]
fn reservations_from_a_used_counter_tile_the_bytes() {
    let lens: [u32; 4] = [10, 6, 6, 100];
    let mut counter: u64 = (1000u64 << 32) | 17;
    let mut expected_wi: u32 = 1000;
    for (k, len) in lens.iter().enumerate() {
        assert_eq!(split_counter(counter), (expected_wi, 17 + k as u32));
        counter = counter.wrapping_add(counter_delta(*len));
        expected_wi += len;
    }
    assert_eq!(split_counter(counter), (1122, 21));
}
