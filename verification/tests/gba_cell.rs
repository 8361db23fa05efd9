use gba::GbaCell;

#[test]
fn cell_new_and_read() {
    let cell: GbaCell<u32> = GbaCell::new(0xDEAD_BEEF);
    assert_eq!(cell.read(), 0xDEAD_BEEF);
}

#[test]
fn cell_write_replaces_value() {
    let mut cell: GbaCell<u16> = GbaCell::new(7);
    cell.write(0x1234);
    assert_eq!(cell.read(), 0x1234);
    cell.write(0);
    assert_eq!(cell.read(), 0);
}

#[test]
fn cell_holds_small_copy_types() {
    let byte_cell: GbaCell<u8> = GbaCell::new(0xA5);
    assert_eq!(byte_cell.read(), 0xA5);
    let flag_cell: GbaCell<bool> = GbaCell::new(true);
    assert!(flag_cell.read());
}
