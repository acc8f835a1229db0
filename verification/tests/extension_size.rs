//! The stored extension size of an extension area.

use oxideav_tga::{parse_extension_area, TGA_EXTENSION_AREA_SIZE};

#[test]
fn extension_area_with_a_stored_size_below_the_fixed_fields_is_rejected() {
    let input = vec![0u8; 600];
    assert!(parse_extension_area(&input, 10).is_none());
    let mut short = vec![0u8; 600];
    short[10..12].copy_from_slice(&494u16.to_le_bytes());
    assert!(parse_extension_area(&short, 10).is_none());
}

#[test]
fn extension_area_with_the_standard_stored_size_is_read() {
    let mut input = vec![0u8; 600];
    input[10..12].copy_from_slice(&(TGA_EXTENSION_AREA_SIZE as u16).to_le_bytes());
    let e = parse_extension_area(&input, 10).unwrap();
    assert_eq!(e.extension_size, 495);
    let mut larger = vec![0u8; 600];
    larger[10..12].copy_from_slice(&600u16.to_le_bytes());
    assert_eq!(parse_extension_area(&larger, 10).unwrap().extension_size, 600);
}
