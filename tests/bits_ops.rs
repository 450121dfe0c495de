use bit_viewer::bits::{apply_bit_op, check_width, mask_for, BitArray, BitOp, EngineError};

#[test]
fn new_array_is_zero() {
    let a = BitArray::new();
    assert_eq!(a.get_raw(), 0);
    assert!(a.get_all_bits().iter().all(|b| !b));
}

#[test]
fn set_clear_toggle_bits() {
    let mut a = BitArray::new();
    a.set_bit(0);
    a.set_bit(63);
    assert_eq!(a.get_raw(), 0x8000_0000_0000_0001);
    assert!(a.get_bit(63));
    assert!(!a.get_bit(62));
    a.clear_bit(0);
    assert_eq!(a.get_raw(), 0x8000_0000_0000_0000);
    a.toggle_bit(5);
    assert_eq!(a.get_raw(), 0x8000_0000_0000_0020);
    a.toggle_bit(5);
    assert_eq!(a.get_raw(), 0x8000_0000_0000_0000);
}

#[test]
fn all_bits_least_significant_first() {
    let a = BitArray(0b1011);
    let bits = a.get_all_bits();
    assert_eq!(bits.len(), 64);
    assert_eq!(&bits[0..5], &[true, true, false, true, false]);
    assert!(bits[4..].iter().all(|b| !b));
}

#[test]
fn bit_array_text_groups_bytes() {
    let a = BitArray(0x8000_0000_0000_00FF);
    let s = a.to_string();
    assert_eq!(
        s,
        "10000000 00000000 00000000 00000000 00000000 00000000 00000000 11111111"
    );
}

#[test]
fn masks_per_width() {
    assert_eq!(mask_for(8), 0xFF);
    assert_eq!(mask_for(16), 0xFFFF);
    assert_eq!(mask_for(32), 0xFFFF_FFFF);
    assert_eq!(mask_for(64), u64::MAX);
    assert_eq!(mask_for(12), u64::MAX);
}

#[test]
fn width_check() {
    assert_eq!(check_width(32), Ok(()));
    assert_eq!(check_width(0), Err(EngineError::InvalidWidth));
    assert_eq!(check_width(24), Err(EngineError::InvalidWidth));
}

#[test]
fn rotate_left_example() {
    assert_eq!(apply_bit_op(0b1010, 8, BitOp::RotateLeft), Ok(0b0001_0100));
}

#[test]
fn rotations_wrap_around_the_active_width() {
    assert_eq!(apply_bit_op(0x80, 8, BitOp::RotateLeft), Ok(0x01));
    assert_eq!(apply_bit_op(0x01, 8, BitOp::RotateRight), Ok(0x80));
    assert_eq!(apply_bit_op(0x8000, 16, BitOp::RotateLeft), Ok(0x0001));
    assert_eq!(apply_bit_op(0x1, 64, BitOp::RotateRight), Ok(0x8000_0000_0000_0000));
}

#[test]
fn shifts_and_not_are_masked() {
    assert_eq!(apply_bit_op(0x81, 8, BitOp::ShiftLeft), Ok(0x02));
    assert_eq!(apply_bit_op(0x81, 8, BitOp::ShiftRight), Ok(0x40));
    assert_eq!(apply_bit_op(0x0F, 8, BitOp::Not), Ok(0xF0));
    assert_eq!(apply_bit_op(0x1234, 16, BitOp::Clear), Ok(0));
    assert_eq!(apply_bit_op(0, 32, BitOp::SetAll), Ok(0xFFFF_FFFF));
}

#[test]
fn single_bit_ops_are_masked() {
    assert_eq!(apply_bit_op(0, 8, BitOp::SetBit(3)), Ok(0x08));
    assert_eq!(apply_bit_op(0, 8, BitOp::SetBit(12)), Ok(0));
    assert_eq!(apply_bit_op(0xFF, 8, BitOp::ClearBit(0)), Ok(0xFE));
    assert_eq!(apply_bit_op(0x10, 16, BitOp::ToggleBit(4)), Ok(0));
    assert_eq!(apply_bit_op(0, 64, BitOp::ToggleBit(63)), Ok(0x8000_0000_0000_0000));
}

#[test]
fn toggle_twice_restores_masked_value() {
    for &(raw, width) in &[(0xABCDu64, 16u64), (0x1234_5678_9ABC_DEF0, 8), (u64::MAX, 32)] {
        for p in 0..width as u8 {
            let once = apply_bit_op(raw, width, BitOp::ToggleBit(p)).unwrap();
            let twice = apply_bit_op(once, width, BitOp::ToggleBit(p)).unwrap();
            assert_eq!(twice, raw & mask_for(width));
        }
    }
}

#[test]
fn invalid_width_is_rejected() {
    assert_eq!(apply_bit_op(1, 12, BitOp::RotateLeft), Err(EngineError::InvalidWidth));
    assert_eq!(apply_bit_op(1, 0, BitOp::Not), Err(EngineError::InvalidWidth));
}
