use fulgur_wasi::error::{fulgur_last_error_copy, fulgur_last_error_len, LastError};
use fulgur_wasi::memory::LinearMemory;

#[test]
fn set_get_clear_roundtrips() {
    let mut last = LastError::new();
    last.clear();
    assert_eq!(fulgur_last_error_len(&last), 0);
    last.set("boom");
    last.with(|s| assert_eq!(s, "boom"));
    assert_eq!(fulgur_last_error_len(&last), 4);
    last.clear();
    assert_eq!(fulgur_last_error_len(&last), 0);
}

#[test]
fn copy_truncates_to_dst_len() {
    let mut last = LastError::new();
    last.clear();
    last.set("0123456789");
    let mut mem = LinearMemory::new();
    let buf = mem.alloc_impl(4);
    let n = last.copy_impl(&mut mem, buf, 4);
    assert_eq!(n, 4);
    assert_eq!(mem.slice_from_raw(buf as u32, 4), b"0123");
}

#[test]
fn copy_of_short_message_copies_all_of_it() {
    let mut last = LastError::new();
    last.set("ab");
    let mut mem = LinearMemory::new();
    let buf = fulgur_wasi::memory::fulgur_alloc(&mut mem, 8);
    assert_eq!(fulgur_last_error_copy(&last, &mut mem, buf, 8), 2);
    assert_eq!(mem.slice_from_raw(buf, 2), b"ab");
}

#[test]
fn error_length_counts_utf8_bytes() {
    let mut last = LastError::new();
    last.set("é!");
    assert_eq!(fulgur_last_error_len(&last), 3);
}

#[test]
fn with_returns_what_the_closure_returns() {
    let mut last = LastError::new();
    last.set("hello");
    assert_eq!(last.with(|s| s.len() * 2), 10);
}

#[test]
fn copy_of_nothing_ignores_destination() {
    let mut last = LastError::new();
    let mut mem = LinearMemory::new();
    assert_eq!(last.copy_impl(&mut mem, 12345, 10), 0);
    last.set("boom");
    assert_eq!(fulgur_last_error_copy(&last, &mut mem, 999, 0), 0);
    assert_eq!(mem.size(), 0);
}
