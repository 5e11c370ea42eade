use rs1030::bits::{byte_hex_text, bytes_to_hex, extract_bits};
use rs1030::decode::util::BdsCode;
use rs1030::dsp::demodulator::pack_bits;

#[test]
fn extracts_msb_first_bits() {
    let data = [0b1010_1100, 0b0110_0000];
    assert_eq!(extract_bits(&data, 0, 5), 0b10101);
    assert_eq!(extract_bits(&data, 5, 6), 0b100011);
}

#[test]
fn extract_bits_caps_width_at_32() {
    let data = [0xde, 0xad, 0xbe, 0xef, 0x01];
    assert_eq!(extract_bits(&data, 0, 40), 0xdeadbeef);
    assert_eq!(extract_bits(&data, 0, 32), 0xdeadbeef);
    assert_eq!(extract_bits(&data, 4, 8), 0xea);
    assert_eq!(extract_bits(&data, 3, 0), 0);
}

#[test]
fn hex_is_lowercase_two_digits_per_byte() {
    assert_eq!(bytes_to_hex(&[0x00, 0x0f, 0xa0, 0xff]), "000fa0ff");
    assert_eq!(bytes_to_hex(&[]), "");
    assert_eq!(bytes_to_hex(&[0x72, 0x19, 0x51]), "721951");
}

#[test]
fn packed_bits_read_back_with_extract_bits() {
    let pattern: Vec<bool> = (0..56).map(|i| (i * 7 + 3) % 5 < 2).collect();
    let bytes = pack_bits(&pattern);
    assert_eq!(bytes.len(), 7);
    for (i, b) in pattern.iter().enumerate() {
        assert_eq!(extract_bits(&bytes, i, 1), *b as u32);
    }
    let ones = pack_bits(&[true; 8]);
    assert_eq!(ones, vec![0xff]);
    let msb = pack_bits(&[true, false, false, false, false, false, false, false]);
    assert_eq!(msb, vec![0x80]);
}

#[test]
fn byte_hex_text_is_prefixed_and_padded() {
    assert_eq!(byte_hex_text(0x05), "0x05");
    assert_eq!(byte_hex_text(0xab), "0xab");
    assert_eq!(BdsCode(0x20).to_text(), "0x20");
    assert_eq!(BdsCode(0x4f).to_text(), "0x4f");
}
