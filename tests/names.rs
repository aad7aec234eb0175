use disk_mpmc::names::{initial_window, page_file_name, parse_page_name, scan_page_names};

#[test]
fn file_names() {
    assert_eq!(page_file_name(0), b".dp.data.maxi.0".to_vec());
    assert_eq!(page_file_name(7), b".dp.data.maxi.7".to_vec());
    assert_eq!(page_file_name(1234), b".dp.data.maxi.1234".to_vec());
    assert_eq!(page_file_name(usize::MAX), format!(".dp.data.maxi.{}", usize::MAX).into_bytes());
}

#[test]
fn parse_names() {
    assert_eq!(parse_page_name(b".dp.data.maxi.0"), Some(0));
    assert_eq!(parse_page_name(b".dp.data.maxi.42"), Some(42));
    assert_eq!(parse_page_name(b".dp.data.maxi.007"), Some(7));
    assert_eq!(parse_page_name(b".dp.data.maxi."), None);
    assert_eq!(parse_page_name(b".dp.data.maxi"), None);
    assert_eq!(parse_page_name(b".dp.data.maxi.1x"), None);
    assert_eq!(parse_page_name(b".dp.data.maxi.+1"), None);
    assert_eq!(parse_page_name(b".dp.data.mini.1"), None);
    assert_eq!(parse_page_name(b"other"), None);
    assert_eq!(parse_page_name(b".dp.data.maxi.99999999999999999999999"), None);
    let max = format!(".dp.data.maxi.{}", usize::MAX);
    assert_eq!(parse_page_name(max.as_bytes()), Some(usize::MAX));
}

#[test]
fn names_round_trip() {
    for seq in [0usize, 9, 10, 99, 100, 65535, usize::MAX - 1] {
        assert_eq!(parse_page_name(&page_file_name(seq)), Some(seq));
    }
}

#[test]
fn directory_scan() {
    let names: Vec<Vec<u8>> = vec![
        b".dp.data.maxi.3".to_vec(),
        b"notes.txt".to_vec(),
        b".dp.data.maxi.5".to_vec(),
        b".dp.data.maxi.4".to_vec(),
        b".dp.data.maxi.x".to_vec(),
    ];
    assert_eq!(scan_page_names(&names), (3, 5));
    assert_eq!(scan_page_names(&Vec::new()), (0, 0));
    assert_eq!(scan_page_names(&vec![b"a".to_vec()]), (0, 0));
}

#[test]
fn opening_windows() {
    assert_eq!(initial_window(0, 0), (0, 0));
    assert_eq!(initial_window(3, 5), (3, 5));
    assert_eq!(initial_window(1, 0), (0, 0));
    assert_eq!(initial_window(6, 5), (0, 5));
    assert_eq!(initial_window(9, 5), (0, 5));
}
