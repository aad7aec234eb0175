use disk_mpmc::{AnonCursor, HandleState, Next};
use disk_mpmc::layout::MAX_MESSAGES_PER_PAGE;

#[test]
fn anonymous_cursor_counts_slots() {
    let mut cursor = AnonCursor::new();
    assert_eq!(cursor.next_slot(), 0);
    assert_eq!(cursor.next_slot(), 1);
    assert_eq!(cursor.next_slot(), 2);
    cursor.reset();
    assert_eq!(cursor.next_slot(), 0);
}

#[test]
fn anonymous_cursor_stops_past_last_slot() {
    let mut cursor = AnonCursor::new();
    for i in 0..MAX_MESSAGES_PER_PAGE {
        assert_eq!(cursor.next_slot(), i);
    }
    assert_eq!(cursor.next_slot(), MAX_MESSAGES_PER_PAGE);
    assert_eq!(cursor.next_slot(), MAX_MESSAGES_PER_PAGE);
}

#[test]
fn handle_moves_to_following_page() {
    let mut state = HandleState::new(4);
    assert_eq!(state.next_anon_slot(), 0);
    assert_eq!(state.next_anon_slot(), 1);
    assert_eq!(state.after_attempt(false), Next::Done);
    assert_eq!(state.seq(), 4);
    assert_eq!(state.next_anon_slot(), 2);
    assert_eq!(state.after_attempt(true), Next::Advance { seq: 5 });
    assert_eq!(state.seq(), 4);
    state.adopt(7);
    assert_eq!(state.seq(), 7);
    assert_eq!(state.next_anon_slot(), 0);
}

#[test]
fn handle_wraps_at_last_sequence_number() {
    let mut state = HandleState::new(usize::MAX);
    assert_eq!(state.after_attempt(true), Next::Advance { seq: 0 });
}
