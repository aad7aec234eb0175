use disk_mpmc::datapage::SLOT_COUNT;
use disk_mpmc::layout::MAX_BYTES_PER_PAGE;
use disk_mpmc::{AnonCursor, DataPage, EndOfDataPage};
use mmapcell::MmapCell;
use std::time::Duration;

fn fresh_page() -> MmapCell<DataPage> {
    MmapCell::<DataPage>::new_anon().unwrap()
}

#[test]
fn simple_test() {
    const TEST_MESSAGE: &str = "test123asdf asdf asdf";
    let cell = fresh_page();
    let page = cell.get_mut();
    page.push(TEST_MESSAGE.as_bytes()).unwrap();
    let msg = page.wait_get(0).unwrap().unwrap();
    assert!(String::from_utf8_lossy(msg).eq(TEST_MESSAGE));
}

#[test]
fn single_message_round_trip() {
    let cell = fresh_page();
    let page = cell.get_mut();
    page.push(b"hello").unwrap();
    assert_eq!(page.try_get(0).unwrap(), Some(&b"hello"[..]));
    assert_eq!(page.try_get(1).unwrap(), None);
    // the first message is framed at offset 0, so its cell holds 1
    assert_eq!(page.decode_slot(1).unwrap(), Some(&b"hello"[..]));
    assert_eq!(page.decode_slot(0).unwrap(), None);
}

#[test]
fn fresh_page_has_nothing_published() {
    let cell = fresh_page();
    let page = cell.get();
    for c in [0u32, 1, 100, 65534] {
        assert_eq!(page.try_get(c).unwrap(), None);
    }
}

#[test]
fn messages_follow_each_other() {
    let cell = fresh_page();
    let page = cell.get_mut();
    page.push(b"a").unwrap();
    page.push(b"").unwrap();
    page.push(b"ccc").unwrap();
    assert_eq!(page.try_get(0).unwrap(), Some(&b"a"[..]));
    assert_eq!(page.try_get(1).unwrap(), Some(&b""[..]));
    assert_eq!(page.try_get(2).unwrap(), Some(&b"ccc"[..]));
    // "a" takes 5 bytes and "" takes 4, so "ccc" starts at offset 9
    assert_eq!(page.decode_slot(10).unwrap(), Some(&b"ccc"[..]));
    assert_eq!(page.try_get(3).unwrap(), None);
}

#[test]
fn slot_exhaustion() {
    let cell = fresh_page();
    let page = cell.get_mut();
    for i in 0..SLOT_COUNT {
        page.push(&[(i % 251) as u8]).unwrap();
    }
    assert!(page.push(b"x").is_err());
    for i in 0..SLOT_COUNT {
        assert_eq!(page.try_get(i as u32).unwrap(), Some(&[(i % 251) as u8][..]));
    }
    let last = page.try_get((SLOT_COUNT - 1) as u32).unwrap().unwrap();
    assert_eq!(last, &[((SLOT_COUNT - 1) % 251) as u8][..]);
    assert!(matches!(page.try_get(SLOT_COUNT as u32), Err(EndOfDataPage)));
    assert!(matches!(page.wait_get(SLOT_COUNT as u32), Err(EndOfDataPage)));
    assert!(matches!(
        page.get_with_timeout(SLOT_COUNT as u32, Duration::from_millis(1)),
        Err(EndOfDataPage)
    ));
}

#[test]
fn byte_exhaustion_terminates_page() {
    let cell = fresh_page();
    let page = cell.get_mut();
    page.push(b"first").unwrap();
    let huge = vec![7u8; MAX_BYTES_PER_PAGE as usize];
    assert!(page.push(&huge).is_err());
    assert!(page.push(b"late").is_err());
    assert_eq!(page.try_get(0).unwrap(), Some(&b"first"[..]));
    // slot 1 is the terminator; each reader hands it on to the next slot
    assert_eq!(page.try_get(4).unwrap(), None);
    assert!(page.try_get(1).is_err());
    assert!(page.try_get(2).is_err());
    assert!(page.try_get(3).is_err());
    assert!(page.try_get(4).is_err());
    assert!(page.wait_get(5).is_err());
    assert_eq!(page.try_get(7).unwrap(), None);
}

#[test]
fn timed_read_of_unpublished_slot_gives_none() {
    let cell = fresh_page();
    let page = cell.get();
    assert_eq!(page.get_with_timeout(0, Duration::from_millis(5)).unwrap(), None);
    assert_eq!(page.get_with_timeout(3, Duration::from_millis(1)).unwrap(), None);
}

#[test]
fn timed_read_of_published_slot() {
    let cell = fresh_page();
    let page = cell.get_mut();
    page.push(b"ready").unwrap();
    assert_eq!(page.get_with_timeout(0, Duration::from_millis(1)).unwrap(), Some(&b"ready"[..]));
    assert_eq!(page.get_with_timeout(0, Duration::MAX).unwrap(), Some(&b"ready"[..]));
}

#[test]
fn group_counter_returns_prior_value() {
    let cell = fresh_page();
    let page = cell.get();
    assert_eq!(page.increment_group_count(0, 1), 0);
    assert_eq!(page.increment_group_count(0, 1), 1);
    assert_eq!(page.increment_group_count(0, 3), 2);
    assert_eq!(page.increment_group_count(0, 1), 5);
    assert_eq!(page.increment_group_count(63, 1), 0);
}

#[test]
fn grouped_fan_out() {
    let cell = fresh_page();
    let page = cell.get_mut();
    for m in [b"a", b"b", b"c"] {
        page.push(m).unwrap();
    }
    // two receivers of group 0 take turns
    let mut first: Vec<Vec<u8>> = Vec::new();
    let mut second: Vec<Vec<u8>> = Vec::new();
    for turn in 0..3 {
        let c = page.increment_group_count(0, 1);
        let msg = page.wait_get(c).unwrap().unwrap().to_vec();
        if turn % 2 == 0 {
            first.push(msg);
        } else {
            second.push(msg);
        }
    }
    for m in &first {
        assert!(!second.contains(m));
    }
    let mut all: Vec<Vec<u8>> = first.into_iter().chain(second).collect();
    all.sort();
    assert_eq!(all, vec![b"a".to_vec(), b"b".to_vec(), b"c".to_vec()]);
    // another group sees every message again
    assert_eq!(page.increment_group_count(1, 1), 0);
}

#[test]
fn anonymous_duplication() {
    let cell = fresh_page();
    let page = cell.get_mut();
    page.push(b"x").unwrap();
    page.push(b"y").unwrap();
    for _ in 0..2 {
        let mut cursor = AnonCursor::new();
        let a = cursor.next_slot();
        let b = cursor.next_slot();
        assert_eq!(page.wait_get(a).unwrap(), Some(&b"x"[..]));
        assert_eq!(page.wait_get(b).unwrap(), Some(&b"y"[..]));
    }
}
