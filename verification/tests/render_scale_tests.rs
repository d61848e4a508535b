use er_character_scale::render_scale::{capture_mask, range_fits, reconcile_selection, SourceMask};

fn put(memory: &mut [u8], address: usize, bytes: &[u8]) {
    memory[address..address + bytes.len()].copy_from_slice(bytes);
}

fn native_fixture() -> Vec<u8> {
    let mut m = vec![0; 0x1000];
    for (a, v) in [
        (0x118, 0x200u64),
        (0x140, 0x300),
        (0x300, 0x400),
        (0x308, 0x500),
        (0x318, 0x600),
        (0x518, 0x700),
    ] {
        put(&mut m, a, &v.to_le_bytes());
    }
    m[0x268] = 1;
    for (a, v) in [
        (0x148, 1i32),
        (0x320, 1),
        (0x328, 4),
        (0x420, 4),
        (0x510, 4),
    ] {
        put(&mut m, a, &v.to_le_bytes());
    }
    put(&mut m, 0x600, &0b1101u32.to_le_bytes());
    for (i, v) in [3i16, 1, -1, 5].into_iter().enumerate() {
        put(&mut m, 0x700 + i * 2, &v.to_le_bytes());
    }
    m
}

fn reader(m: &[u8]) -> impl Fn(usize, usize) -> Option<Vec<u8>> + '_ {
    |a, len| {
        a.checked_add(len)
            .and_then(|end| m.get(a..end))
            .map(|bytes| bytes.to_vec())
    }
}

#[test]
fn native_bitmask_selection_not_magnitude_or_all_mapped_rows() {
    let m = native_fixture();
    let mask = capture_mask(0x100, 6, &reader(&m)).unwrap();
    assert_eq!(
        (0..6).filter(|&i| mask.contains(i)).collect::<Vec<_>>(),
        vec![3, 5]
    );
    assert!(!mask.contains(4096));
}

#[test]
fn native_disabled_invalid_header_and_out_of_domain_fail_closed() {
    let mut m = native_fixture();
    m[0x268] = 0;
    assert!(!(0..6).any(|i| capture_mask(0x100, 6, &reader(&m)).unwrap().contains(i)));
    m[0x268] = 1;
    assert!(capture_mask(0x100, 5, &reader(&m)).is_none());
    put(&mut m, 0x320, &2i32.to_le_bytes());
    assert!(capture_mask(0x100, 6, &reader(&m)).is_none());
    assert!(capture_mask(usize::MAX, 6, &reader(&m)).is_none());
    assert!(SourceMask::new(0).is_none());
    assert!(SourceMask::new(4097).is_none());
}

#[test]
fn changed_owner_entry_during_capture_is_rejected() {
    let m = native_fixture();
    let reads = std::cell::Cell::new(0);
    let memory = |a: usize, len: usize| {
        let mut out = reader(&m)(a, len)?;
        if a == 0x300 {
            reads.set(reads.get() + 1);
            if reads.get() > 1 {
                out[0] ^= 1;
            }
        }
        Some(out)
    };
    assert!(capture_mask(0x100, 6, &memory).is_none());
}

#[test]
fn source_mask_insert_and_bounds() {
    let mut mask = SourceMask::new(70).unwrap();
    assert_eq!(mask.len_exec(), 70);
    assert!(!mask.contains(64));
    assert_eq!(mask.insert(64), Some(()));
    assert!(mask.contains(64));
    assert!(!mask.contains(0));
    assert_eq!(mask.insert(70), None);
    assert!(!mask.contains(70));
    assert!(SourceMask::new(4096).is_some());
}

#[test]
fn unreadable_core_fails_closed() {
    let m = native_fixture();
    assert!(capture_mask(0x2000, 6, &reader(&m)).is_none());
}

#[test]
fn reconcile_selects_masked_rows_in_order() {
    let mut mask = SourceMask::new(6).unwrap();
    mask.insert(3);
    mask.insert(5);
    let mapping = [3i16, 1, -1, 5, 0];
    assert_eq!(reconcile_selection(4, &mapping, 0, &mask), Some(vec![0, 3]));
    assert_eq!(reconcile_selection(2, &mapping, 3, &mask), Some(vec![0]));
    assert_eq!(reconcile_selection(2, &mapping, 4, &mask), None);
    let outside = [6i16];
    assert_eq!(reconcile_selection(1, &outside, 0, &mask), None);
    assert_eq!(reconcile_selection(1, &[-7i16], 0, &mask), Some(vec![]));
    assert!(range_fits(2, 4, 2));
    assert!(!range_fits(2, 4, 3));
    assert!(!range_fits(1, 4, usize::MAX));
    assert!(!range_fits(4097, 4097, 0));
}
