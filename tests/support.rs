use bootcore::logging::{LogBuffer, LOG_BUFFER_SIZE};
use bootcore::uflags::Flags16;

#[test]
fn getbit_reads_single_bits() {
    let f = Flags16::from_u16(0b1010_0000_0000_0101);
    assert_eq!(f.getbit(0), 1);
    assert_eq!(f.getbit(1), 0);
    assert_eq!(f.getbit(2), 1);
    assert_eq!(f.getbit(13), 1);
    assert_eq!(f.getbit(15), 1);
    assert_eq!(f.getbit(14), 0);
}

#[test]
fn check_flag_is_true_for_clear_bits() {
    let f = Flags16::from_u16(0b0000_0000_0000_0101);
    assert_eq!(f.check_flag(0), Some(false));
    assert_eq!(f.check_flag(1), Some(true));
    assert_eq!(f.check_flag(15), Some(true));
    assert_eq!(f.check_flag(16), None);
    assert_eq!(f.check_flag(usize::MAX), None);
}

#[test]
fn truncate_bits_clears_bits_below_the_top() {
    let f = Flags16::from_u16(0xFFFF);
    assert_eq!(f.truncate_bits(1).into_u16(), 0xFFFF);
    assert_eq!(f.truncate_bits(4).into_u16(), 0x8FFF);
    assert_eq!(f.truncate_bits(16).into_u16(), 0x8000);
    assert_eq!(f.truncate_bits(17).into_u16(), 0);
    assert_eq!(Flags16::from_u16(0x0801).truncate_bits(4).into_u16(), 0x0801);
}

#[test]
fn flags_compare_by_value() {
    assert!(Flags16::from_u16(3) == Flags16::from_u16(3));
    assert!(Flags16::from_u16(3) != Flags16::from_u16(4));
}

#[test]
fn log_buffer_appends_in_order() {
    let mut log = LogBuffer::new(0u8);
    assert_eq!(log.offsets(), (0, 0));
    log.append_buf(&[1, 2, 3]);
    assert_eq!(log.offsets(), (3, 3));
    log.append_byte(4);
    assert_eq!(log.offsets(), (4, 4));
    LogBuffer::<u8>::flush();
    assert_eq!(log.offsets(), (4, 4));
}

#[test]
fn log_buffer_offsets_wrap() {
    let mut big = LogBuffer::new(0u32);
    for i in 0..(LOG_BUFFER_SIZE as u32 + 10) {
        big.append_byte(i);
    }
    assert_eq!(big.offsets(), (10, 10));
}
