use fulgur_wasi::memory::{fulgur_alloc, fulgur_free, LinearMemory};

fn write_pattern(mem: &mut LinearMemory, ptr: usize, len: usize) {
    let pattern: Vec<u8> = (0..len).map(|i| (i & 0xff) as u8).collect();
    mem.write_bytes(ptr, &pattern);
}

#[test]
fn alloc_then_free_roundtrips_pattern() {
    let mut mem = LinearMemory::new();
    let len = 64usize;
    let ptr = mem.alloc_impl(len);
    assert_ne!(ptr, 0, "alloc returned null");
    write_pattern(&mut mem, ptr, len);
    let slice = mem.slice_from_raw(ptr as u32, len as u32);
    for (i, b) in slice.iter().enumerate() {
        assert_eq!(*b, (i & 0xff) as u8);
    }
    mem.free_impl(ptr, len);
}

#[test]
fn into_packed_zero_for_empty() {
    let mut mem = LinearMemory::new();
    assert_eq!(mem.into_packed(Vec::new()), 0);
}

#[test]
fn into_packed_recoverable() {
    let mut mem = LinearMemory::new();
    let bytes = vec![0xAA, 0xBB, 0xCC, 0xDD];
    let packed = mem.into_packed(bytes.clone());

    let len_extracted = (packed & 0xFFFFFFFF) as usize;
    assert_eq!(len_extracted, bytes.len());

    let len = bytes.len();
    let ptr = mem.alloc_impl(len);
    mem.write_bytes(ptr, &bytes);
    let recovered = mem.slice_from_raw(ptr as u32, len as u32);
    assert_eq!(recovered, &bytes[..]);
    mem.free_impl(ptr, len);
}

#[test]
fn into_packed_holds_address_and_bytes() {
    let mut mem = LinearMemory::new();
    let packed = mem.into_packed(vec![1, 2, 3]);
    // The first region starts at address 1: address 0 is never handed out.
    assert_eq!(packed, (1u64 << 32) | 3);
    let ptr = (packed >> 32) as u32;
    let len = (packed & 0xFFFF_FFFF) as u32;
    assert_eq!(mem.slice_from_raw(ptr, len), &[1u8, 2, 3][..]);
}

#[test]
fn regions_are_placed_first_fit() {
    let mut mem = LinearMemory::new();
    let a = mem.alloc_impl(10);
    let b = mem.alloc_impl(5);
    let c = mem.alloc_impl(7);
    assert_eq!((a, b, c), (1, 11, 16));
    assert_eq!(mem.size(), 23);
    // The gap that `b` leaves takes a region of up to 5 bytes again.
    mem.free_impl(b, 5);
    assert_eq!(mem.alloc_impl(6), 23);
    assert_eq!(mem.alloc_impl(4), 11);
    assert_eq!(mem.alloc_impl(1), 15);
    assert_eq!(mem.alloc_impl(1), 29);
}

#[test]
fn zero_length_alloc_is_non_null_and_reserves_nothing() {
    let mut mem = LinearMemory::new();
    assert_eq!(mem.alloc_impl(0), 1);
    assert_eq!(mem.size(), 0);
    assert_eq!(mem.alloc_impl(3), 1);
}

#[test]
fn free_of_null_or_unknown_region_does_nothing() {
    let mut mem = LinearMemory::new();
    let a = mem.alloc_impl(8);
    mem.free_impl(0, 8);
    mem.free_impl(a, 4);
    mem.free_impl(a + 1, 8);
    // `a` is still live, so the next region goes after it.
    assert_eq!(mem.alloc_impl(2), 9);
}

#[test]
fn alloc_fails_with_zero_when_nothing_fits() {
    let mut mem = LinearMemory::new();
    assert_eq!(mem.alloc_impl(0xFFFF_FFFF), 0);
    assert_eq!(mem.size(), 0);
    assert_eq!(fulgur_alloc(&mut mem, 0xFFFF_FFFF), 0);
}

#[test]
fn abi_alloc_and_free_round_trip() {
    let mut mem = LinearMemory::new();
    let p = fulgur_alloc(&mut mem, 16);
    assert_eq!(p, 1);
    fulgur_free(&mut mem, p, 16);
    assert_eq!(fulgur_alloc(&mut mem, 16), 1);
}

#[test]
fn slice_of_zero_length_ignores_address() {
    let mem = LinearMemory::new();
    assert!(mem.slice_from_raw(12345, 0).is_empty());
}

#[test]
fn abi_version_is_one() {
    assert_eq!(fulgur_wasi::fulgur_wasi_abi_version(), 1);
}

#[test]
fn fixed_memory_holds_regions_up_to_its_limit() {
    let mut mem = LinearMemory::with_limit(16);
    assert_eq!(mem.size(), 16);
    assert_eq!(mem.alloc_impl(15), 1);
    assert_eq!(mem.alloc_impl(1), 0);
    mem.free_impl(1, 15);
    assert_eq!(mem.alloc_impl(16), 0);
    assert_eq!(mem.alloc_impl(15), 1);
    assert_eq!(mem.size(), 16);
}

#[test]
fn fixed_memory_starts_zeroed() {
    let mem = LinearMemory::with_limit(8);
    assert_eq!(mem.slice_from_raw(0, 8), &[0u8; 8][..]);
}
