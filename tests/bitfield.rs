use trident::bitfield::Bitfield;

#[test]
fn empty_bitfield_has_no_piece() {
    let b = Bitfield::empty(10);
    assert_eq!(b.0, vec![0u8, 0u8]);
    for i in 0..10usize {
        assert!(!b.has_piece(&i));
    }
}

#[test]
fn empty_bitfield_rounds_up_to_whole_bytes() {
    assert_eq!(Bitfield::empty(0).0.len(), 0);
    assert_eq!(Bitfield::empty(8).0.len(), 1);
    assert_eq!(Bitfield::empty(9).0.len(), 2);
    assert_eq!(Bitfield::empty(17).0.len(), 3);
}

#[test]
fn mark_sets_only_that_piece() {
    for i in 0..20usize {
        let mut b = Bitfield::empty(20);
        b.set_piece(&i);
        for j in 0..20usize {
            assert_eq!(b.has_piece(&j), i == j);
        }
    }
}

#[test]
fn mark_is_idempotent() {
    let mut b = Bitfield::empty(16);
    b.set_piece(&9);
    let once = b.0.clone();
    b.set_piece(&9);
    assert_eq!(b.0, once);
    assert_eq!(b.0, vec![0u8, 2u8]);
}

#[test]
fn from_raw_keeps_bytes() {
    let b = Bitfield::from(vec![0b0000_0101u8, 0x80u8]);
    assert!(b.has_piece(&0));
    assert!(!b.has_piece(&1));
    assert!(b.has_piece(&2));
    assert!(b.has_piece(&15));
    assert!(!b.has_piece(&14));
}
