use rs1030::crc::{ap_address_from_overlay, ap_overlay_from_address, crc24, recover_ap_address};

#[test]
fn overlay_round_trip() {
    for addr in [0, 1, 0x399098, 0xabcdef, 0xffffff] {
        let overlay = ap_overlay_from_address(addr);
        assert_eq!(ap_address_from_overlay(overlay), addr & 0xFF_FFFF);
    }
}

#[test]
fn overlay_round_trip_ignores_high_bits() {
    for addr in [0x1000000u32, 0xff4b1618, 0x8000_0001] {
        let overlay = ap_overlay_from_address(addr);
        assert!(overlay <= 0xFF_FFFF);
        assert_eq!(ap_address_from_overlay(overlay), addr & 0xFF_FFFF);
    }
}

#[test]
fn every_overlay_value_has_an_address() {
    for y in [0u32, 1, 0x800000, 0x123456, 0xffffff] {
        let a = ap_address_from_overlay(y);
        assert!(a <= 0xFF_FFFF);
        assert_eq!(ap_overlay_from_address(a), y);
    }
    assert_eq!(ap_address_from_overlay(0xff00_0001), ap_address_from_overlay(1));
}

#[test]
fn overlay_of_single_bits() {
    assert_eq!(ap_overlay_from_address(0), 0);
    assert_eq!(ap_overlay_from_address(0x800000), 0xfffa04);
    assert_eq!(ap_overlay_from_address(1), 1);
}

#[test]
fn crc_of_zero_bits_is_zero() {
    assert_eq!(crc24(&[0xff, 0xff], 0), 0);
    assert_eq!(crc24(&[0, 0, 0, 0], 32), 0);
    assert_eq!(crc24(&[0x80], 1), 1);
}

#[test]
fn recovers_address_from_known_frame() {
    let frame = [0x00, 0x00, 0x00, 0x00, 0x72, 0x19, 0x51];
    assert_eq!(recover_ap_address(&frame, 56), 0x4b1618);
}

#[test]
fn recovers_the_address_a_frame_was_encoded_for() {
    for address in [0x4b1618u32, 0x000001, 0xabcdef, 0xffffff] {
        let mut frame = [0x20u8, 0x10, 0x42, 0x17, 0, 0, 0];
        let ap = crc24(&frame, 32) ^ ap_overlay_from_address(address);
        frame[4] = (ap >> 16) as u8;
        frame[5] = (ap >> 8) as u8;
        frame[6] = ap as u8;
        assert_eq!(recover_ap_address(&frame, 56), address);
    }
}

#[test]
fn inverse_rows_decode_overlays() {
    let rows = rs1030::crc::build_overlay_inverse();
    assert!(rows.iter().all(|r| *r < 1 << 24));
    for a in [0u32, 1, 0x4b1618, 0x800000, 0xffffff, 0x123456] {
        let y = ap_overlay_from_address(a);
        let mut back = 0u32;
        for (r, mask) in rows.iter().enumerate() {
            if (mask & y).count_ones() % 2 == 1 {
                back |= 1 << (23 - r);
            }
        }
        assert_eq!(back, a);
    }
}
