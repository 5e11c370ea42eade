use rs1030::decode::acas::{self, MuKind};
use rs1030::decode::deku_uplink::{parse_uf0, parse_uf16};
use rs1030::decode::uplink::{self, DecodedFields, UplinkFormat};
use rs1030::decode::DecodeError;

#[test]
fn parses_uf0_layout() {
    let frame = [0x00, 0x00, 0x00, 0x00, 0x72, 0x19, 0x51];
    let parsed = parse_uf0(&frame).unwrap();
    assert_eq!(parsed.uf, 0);
    assert_eq!(parsed.rl, 0);
    assert_eq!(parsed.aq, 0);
    assert_eq!(parsed.ds, 0);
    assert_eq!(parsed.ap, 0x721951);
}

#[test]
fn parses_uf16_layout() {
    let frame = [
        0x80, 0x80, 0x00, 0x00, 0x32, 0x00, 0x00, 0x00, 0x4b, 0x18, 0x04, 0xd2, 0x3f, 0x7c,
    ];
    let parsed = parse_uf16(&frame).unwrap();
    assert_eq!(parsed.uf, 16);
    assert_eq!(parsed.rl, 1);
    assert_eq!(parsed.aq, 0);
    assert_eq!(parsed.mu, [0x32, 0x00, 0x00, 0x00, 0x4b, 0x18, 0x04]);
    assert_eq!(parsed.ap, 0xd23f7c);
}

#[test]
fn uplink_decodes_known_uf0() {
    let frame = [0x00, 0x00, 0x00, 0x00, 0x72, 0x19, 0x51];
    let decoded = uplink::decode_frame(&frame).unwrap();
    assert_eq!(decoded.uf, 0);
    assert_eq!(decoded.address, "4b1618");
}

#[test]
fn flat_decoder_fields_and_errors() {
    let frame = [0x00, 0x85, 0x54, 0x00, 0x72, 0x19, 0x51];
    let decoded = uplink::decode_frame(&frame).unwrap();
    assert_eq!(decoded.bits, 56);
    assert_eq!(decoded.raw, "00855400721951");
    assert_eq!(decoded.address_u32, u32::from_str_radix(&decoded.address, 16).unwrap());
    match decoded.fields {
        DecodedFields::Uf0(f) => {
            assert_eq!((f.rl, f.aq, f.ds), (1, 1, 0x55));
        }
        _ => panic!("wrong fields"),
    }
    assert!(matches!(
        uplink::decode_frame(&[0; 3]),
        Err(uplink::DecodeError::InvalidLength(3))
    ));
    let frame = [0x58, 0, 0, 0, 0x12, 0x34, 0x56];
    let decoded = uplink::decode_frame(&frame).unwrap();
    assert_eq!(decoded.uf, 11);
    assert_eq!(decoded.fields, DecodedFields::Unsupported);
    assert_eq!(UplinkFormat::from_frame(&[0x10]), UplinkFormat::Unknown(2));
    assert_eq!(UplinkFormat::from_frame(&[0xe8]).number(), 24);
}

#[test]
fn flat_decoder_uf16_mid() {
    let frame = [
        0x80, 0x80, 0x00, 0x00, 0x32, 0x00, 0x00, 0x00, 0x4b, 0x18, 0x04, 0xd2, 0x3f, 0x7c,
    ];
    let mu = acas::decode_mu(&frame);
    assert_eq!(mu.kind, MuKind::AcasBroadcast);
    assert_eq!(mu.mid, Some(0x4b1804));
    let decoded = uplink::decode_frame(&frame).unwrap();
    match decoded.fields {
        DecodedFields::Uf16(f) => {
            assert_eq!(f.rl, 1);
            assert_eq!(f.acas, mu);
        }
        _ => panic!("wrong fields"),
    }
}

#[test]
fn raw_parsers_name_the_field_that_ran_out() {
    assert_eq!(parse_uf0(&[0, 0]), Err(DecodeError::Incomplete(8)));
    assert_eq!(parse_uf16(&[0x80; 5]), Err(DecodeError::Incomplete(8)));
}
