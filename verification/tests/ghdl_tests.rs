use tcp_server::ghdl::{GHDLRange, DIR_ASCENDING, DIR_DESCENDING};

#[test]
fn descending_range_len() {
    let r = GHDLRange::new(31, 0, DIR_DESCENDING);
    assert_eq!(r.len, 32);
}

#[test]
fn ascending_range_len() {
    let r = GHDLRange::new(0, 31, DIR_ASCENDING);
    assert_eq!(r.len, 32);
}

#[test]
fn null_ranges_are_empty() {
    assert_eq!(GHDLRange::new(5, 3, DIR_ASCENDING).len, 0);
    assert_eq!(GHDLRange::new(3, 5, DIR_DESCENDING).len, 0);
    assert_eq!(GHDLRange::new(7, 7, DIR_ASCENDING).len, 1);
}
