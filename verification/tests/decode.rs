use rs1030::decode::util::InvalidIcao24;
use rs1030::crc::recover_ap_address;
use rs1030::decode::uf0;
use rs1030::decode::uf11;
use rs1030::decode::uf16::{self, MuKind};
use rs1030::decode::uf20;
use rs1030::decode::uf21;
use rs1030::decode::uf24;
use rs1030::decode::uf4;
use rs1030::decode::uf5;
use rs1030::decode::util::{
    decode_sd, queried_bds, BdsCode, Icao24, Ma, SpecialDesignator, TcasSensitivityLevelCommand,
    TisMessageKind,
};
use rs1030::decode::DecodeError;
use rs1030::{decode_frame, UplinkFormat};

#[test]
fn mod_decodes_known_uf0() {
    let frame = [0x00, 0x00, 0x00, 0x00, 0x72, 0x19, 0x51];
    let decoded = decode_frame(&frame).unwrap();
    assert_eq!(decoded.uf(), 0);
    match decoded.payload {
        UplinkFormat::Uf0(uf0) => {
            assert_eq!(uf0.ap.0, 0x4b1618);
        }
        _ => panic!("wrong UF"),
    }
}

#[test]
fn dispatches_additional_uplink_formats() {
    let cases: &[(&[u8], u8)] = &[
        (&[0x20, 0, 0, 0, 0x12, 0x34, 0x56], 4),
        (&[0x28, 0, 0, 0, 0x12, 0x34, 0x56], 5),
        (&[0x58, 0, 0, 0, 0x12, 0x34, 0x56], 11),
        (&[0xa0, 0, 0, 0, 1, 2, 3, 4, 5, 6, 7, 0x12, 0x34, 0x56], 20),
        (&[0xa8, 0, 0, 0, 1, 2, 3, 4, 5, 6, 7, 0x12, 0x34, 0x56], 21),
        (&[0xc0, 1, 2, 3, 4, 5, 6, 7, 8, 9, 10, 0x12, 0x34, 0x56], 24),
    ];
    for (frame, expected_uf) in cases {
        let decoded = decode_frame(frame).unwrap();
        assert_eq!(decoded.uf(), *expected_uf);
        assert!(!matches!(decoded.payload, UplinkFormat::Unknown { .. }));
    }
}

#[test]
fn uplink_format_is_deku_read() {
    let frame = [0x00, 0x00, 0x00, 0x00, 0x72, 0x19, 0x51];
    let (_, payload) = UplinkFormat::from_bytes((&frame, 0)).unwrap();
    assert_eq!(payload.number(), 0);
}

#[test]
fn uf0_parses_layout() {
    let frame = [0x00, 0x00, 0x00, 0x00, 0x72, 0x19, 0x51];
    let parsed = uf0::decode(&frame, recover_ap_address(&frame, 56)).unwrap();
    assert_eq!(parsed.uf, 0);
    assert!(!parsed.rl);
    assert!(!parsed.aq);
    assert_eq!(parsed.ds, 0);
    assert_eq!(parsed.ap.0, 0x4b1618);
}

#[test]
fn uf11_parses_layout() {
    let frame = [0x58, 0x00, 0x00, 0x00, 0x12, 0x34, 0x56];
    let address = recover_ap_address(&frame, 56);
    let parsed = uf11::decode(&frame, address).unwrap();
    assert_eq!(parsed.uf, 11);
    assert_eq!(parsed.pr, 0);
    assert_eq!(parsed.ic, 0);
    assert_eq!(parsed.cl, 0);
    assert_eq!(parsed.ap.0, address);
}

#[test]
fn uf16_parses_layout() {
    let frame = [
        0x80, 0x80, 0x00, 0x00, 0x32, 0x00, 0x00, 0x00, 0x4b, 0x18, 0x04, 0xd2, 0x3f, 0x7c,
    ];
    let address = recover_ap_address(&frame, 112);
    let parsed = uf16::decode(&frame, address).unwrap();
    assert_eq!(parsed.uf, 16);
    assert!(parsed.rl);
    assert!(!parsed.aq);
    assert_eq!(parsed.mu, [0x32, 0x00, 0x00, 0x00, 0x4b, 0x18, 0x04]);
    assert_eq!(parsed.acas.kind, MuKind::AcasBroadcast);
    assert_eq!(parsed.acas.mid.as_deref(), Some("4b1804"));
    assert_eq!(parsed.ap.0, address);
}

#[test]
fn uf20_parses_layout() {
    let frame = [0xa0, 0x00, 0x00, 0x00, 1, 2, 3, 4, 5, 6, 7, 0x12, 0x34, 0x56];
    let parsed = uf20::decode(&frame, 0xabcdef).unwrap();
    assert_eq!(parsed.uf, 20);
    assert_eq!(parsed.ap.0, 0xabcdef);
    assert!(matches!(parsed.ma, Ma::DifferentialGpsCorrection { .. }));
}

#[test]
fn uf20_computes_bds() {
    let frame = [0xa0, 0x90, 0x00, 0x00, 0x05, 0xa0, 0, 0, 0, 0, 0, 0x12, 0x34, 0x56];
    let parsed = uf20::decode(&frame, 0xabcdef).unwrap();
    assert_eq!(parsed.bds, Some(BdsCode(0x20)));
}

#[test]
fn uf21_parses_layout() {
    let frame = [0xa8, 0x00, 0x00, 0x00, 1, 2, 3, 4, 5, 6, 7, 0x12, 0x34, 0x56];
    let address = recover_ap_address(&frame, 112);
    let parsed = uf21::decode(&frame, address).unwrap();
    assert_eq!(parsed.uf, 21);
    assert_eq!(parsed.ap.0, address);
    assert!(matches!(parsed.ma, Ma::DifferentialGpsCorrection { .. }));
}

#[test]
fn uf24_parses_layout() {
    let frame = [0xc0, 1, 2, 3, 4, 5, 6, 7, 8, 9, 10, 0x12, 0x34, 0x56];
    let address = recover_ap_address(&frame, 112);
    let parsed = uf24::decode(&frame, address).unwrap();
    assert_eq!(parsed.uf_prefix, 3);
    assert_eq!(parsed.rc, 0);
    assert_eq!(parsed.nc, 0);
    assert_eq!(parsed.mc, [1, 2, 3, 4, 5, 6, 7, 8, 9, 10]);
    assert_eq!(parsed.ap.0, address);
}

#[test]
fn uf4_parses_layout() {
    let frame = [0x20, 0x00, 0x00, 0x00, 0x12, 0x34, 0x56];
    let parsed = uf4::decode(&frame, 0xabcdef).unwrap();
    assert_eq!(parsed.uf, 4);
    assert_eq!(parsed.pc, 0);
    assert_eq!(parsed.rr, 0);
    assert_eq!(parsed.di, 0);
    assert_eq!(parsed.bds, None);
    assert_eq!(parsed.ap.0, 0xabcdef);
}

#[test]
fn uf4_computes_bds() {
    let frame = [0x20, 0x90, 0x00, 0x00, 0x12, 0x34, 0x56];
    let parsed = uf4::decode(&frame, 0xabcdef).unwrap();
    assert_eq!(parsed.bds, Some(BdsCode(0x20)));
}

#[test]
fn decodes_di7_rrs_and_las() {
    let sd = decode_sd(7, 0x2a55).unwrap();
    match sd {
        SpecialDesignator::Di7(value) => {
            assert_eq!(value.iis, 2);
            assert_eq!(value.rrs, 0x0a);
            assert!(value.los);
            assert!(value.ovc);
            assert_eq!(value.las(), 5);
        }
        _ => panic!("wrong SD variant"),
    }
}

#[test]
fn no_bds_for_surveillance_request() {
    let sd = decode_sd(0, 0).unwrap();
    assert_eq!(queried_bds(0, &sd), None);
}

#[test]
fn bds2_defaults_to_zero_without_rrs() {
    let sd = decode_sd(0, 0).unwrap();
    assert_eq!(queried_bds(18, &sd), Some(BdsCode(0x20)));
}

#[test]
fn bds2_comes_from_di3_rrs() {
    // DI=3: RRS is Annex bits 24-27, i.e. bits 8..11 of this u16 value.
    let sd = decode_sd(3, 0x00a0).unwrap();
    assert_eq!(queried_bds(18, &sd), Some(BdsCode(0x25)));
}

#[test]
fn decodes_tcas_slc() {
    let (_, ma) = Ma::from_bytes((&[0x05, 0xa0, 0, 0, 0, 0, 0], 0)).unwrap();
    assert!(matches!(
        ma,
        Ma::TcasSensitivityLevelCommand(TcasSensitivityLevelCommand { slc: 10, .. })
    ));
}

#[test]
fn decodes_tis_keep_alive() {
    let (_, ma) = Ma::from_bytes((&[0x02, 0xfc, 0, 0, 0, 0, 0], 0)).unwrap();
    match ma {
        Ma::TisUplink(tis) => {
            assert_eq!(tis.message_type, 63);
            assert_eq!(tis.kind, TisMessageKind::KeepAlive);
        }
        _ => panic!("wrong MA variant"),
    }
}

// ---------------------------------------------------------------------------
// Further cases
// ---------------------------------------------------------------------------

#[test]
fn rejects_invalid_frame_lengths() {
    assert_eq!(decode_frame(&[0u8; 8]), Err(DecodeError::InvalidLength(8)));
    assert_eq!(decode_frame(&[]), Err(DecodeError::InvalidLength(0)));
    assert_eq!(decode_frame(&[0u8; 13]), Err(DecodeError::InvalidLength(13)));
}

#[test]
fn short_frame_of_long_format_is_incomplete() {
    // The read that runs out is one byte of MU, MA or MC ...
    assert_eq!(
        decode_frame(&[0x80, 0, 0, 0, 0x12, 0x34, 0x56]),
        Err(DecodeError::Incomplete(8))
    );
    assert_eq!(
        decode_frame(&[0xa8, 0, 0, 0, 0x05, 0x34, 0x56]),
        Err(DecodeError::Incomplete(8))
    );
    assert_eq!(
        decode_frame(&[0xc0, 0, 0, 0, 0x02, 0x34, 0x56]),
        Err(DecodeError::Incomplete(8))
    );
    // ... or the 5-bit relative altitude of a TIS traffic block.
    assert_eq!(
        decode_frame(&[0xa0, 0, 0, 0, 0x02, 0x34, 0x56]),
        Err(DecodeError::Incomplete(5))
    );
    // A single-format decoder names the field that ran out: UF0's 10 spare
    // bits after DS, a byte of UF24's MC, ...
    assert_eq!(uf0::decode(&[0, 0, 0], 0), Err(DecodeError::Incomplete(10)));
    assert_eq!(uf0::decode(&[0, 0, 0, 0, 0, 0], 0), Err(DecodeError::Incomplete(24)));
    assert_eq!(uf0::decode(&[], 0), Err(DecodeError::Incomplete(5)));
    assert_eq!(uf24::decode(&[0xc0; 7], 0), Err(DecodeError::Incomplete(8)));
    assert_eq!(uf11::decode(&[0x58, 0, 0], 0), Err(DecodeError::Incomplete(16)));
    // ... an SD subfield for the frame's DI (DI 3: SIS, 6 bits) ...
    assert_eq!(uf4::decode(&[0x20, 0x03], 0), Err(DecodeError::Incomplete(6)));
    assert_eq!(uf5::decode(&[0x28, 0x07, 0xff], 0), Err(DecodeError::Incomplete(1)));
    // ... or an MA field for the frame's MA header.
    assert_eq!(uf20::decode(&[0xa0, 0, 0, 0], 0), Err(DecodeError::Incomplete(8)));
    assert_eq!(
        uf21::decode(&[0xa8, 0, 0, 0, 0x02, 0, 0, 0, 0], 0),
        Err(DecodeError::Incomplete(6))
    );
    assert_eq!(uf16::decode(&[0x80; 13], 0), Err(DecodeError::Incomplete(24)));
}

#[test]
fn unknown_format_keeps_its_number() {
    let decoded = decode_frame(&[0x08, 0, 0, 0, 0, 0, 0]).unwrap();
    assert_eq!(decoded.uf(), 1);
    assert_eq!(decoded.payload, UplinkFormat::Unknown { uf: 1 });
    let decoded = decode_frame(&[0xf8, 0, 0, 0, 0, 0, 0, 0, 0, 0, 0, 0, 0, 0]).unwrap();
    assert_eq!(decoded.uf(), 24);
}

#[test]
fn raw_is_frame_in_hex() {
    let decoded = decode_frame(&[0x00, 0x00, 0x00, 0x00, 0x72, 0x19, 0x51]).unwrap();
    assert_eq!(decoded.raw, "00000000721951");
}

#[test]
fn uf4_and_uf20_carry_recovered_address() {
    let frame = [0x20, 0x00, 0x00, 0x00, 0x12, 0x34, 0x56];
    let decoded = decode_frame(&frame).unwrap();
    let expected = recover_ap_address(&frame, 56);
    match decoded.payload {
        UplinkFormat::Uf4(uf4) => assert_eq!(uf4.ap, Icao24(expected)),
        _ => panic!("wrong UF"),
    }
    let frame = [0x28, 0x41, 0x23, 0x45, 0x12, 0x34, 0x56];
    let parsed = uf5::decode(&frame, 7).unwrap();
    assert_eq!(parsed.uf, 5);
    assert_eq!(parsed.pc, 0);
    assert_eq!(parsed.rr, 8);
    assert_eq!(parsed.di, 1);
    assert_eq!(parsed.ap, Icao24(7));
}

#[test]
fn sd_layouts() {
    assert_eq!(
        decode_sd(4, 0xbeef).unwrap(),
        SpecialDesignator::Reserved { di: 4, bits: 0xbeef }
    );
    match decode_sd(1, 0x2a55).unwrap() {
        SpecialDesignator::Di1(v) => {
            assert_eq!(v.iis, 2);
            assert_eq!(v.mbs, 2);
            assert_eq!(v.mes, 4);
            assert!(v.los);
            assert_eq!(v.rss, 1);
            assert_eq!(v.tms, 5);
            assert_eq!(v.las(), 5);
        }
        _ => panic!("wrong SD variant"),
    }
    match decode_sd(0, 0x0010).unwrap() {
        SpecialDesignator::Di0(v) => assert!(v.ovc),
        _ => panic!("wrong SD variant"),
    }
    let sd = decode_sd(7, 0x0a00).unwrap();
    assert_eq!(queried_bds(31, &sd), Some(BdsCode(0xfa)));
}

#[test]
fn tis_first_segment_heading_and_blocks() {
    // message type 10, block1 bearing 63 (null alert), block2 bearing 1.
    let (rest, ma) = Ma::from_bytes((&[0x02, 0x2b, 0xf0, 0x00, 0x00, 0x80, 0x00, 0xaa], 0)).unwrap();
    assert_eq!(rest, (&[0xaa][..], 0));
    match ma {
        Ma::TisUplink(tis) => {
            assert_eq!(tis.message_type, 10);
            assert_eq!(
                tis.kind,
                TisMessageKind::TrafficDataFirstSegment { own_heading_degrees: 60 }
            );
            assert!(tis.block1.is_null_alert());
            assert_eq!(tis.block2.bearing, 1);
            assert!(!tis.block2.is_null_alert());
        }
        _ => panic!("wrong MA variant"),
    }
    assert!(matches!(Ma::from_bytes((&[0x02, 0x2b], 0)), Err(DecodeError::Incomplete(6))));
}

#[test]
fn unknown_comm_a_message() {
    let (_, ma) = Ma::from_bytes((&[0x77, 1, 2, 3, 4, 5, 6], 0)).unwrap();
    assert_eq!(ma, Ma::Unknown { id: 0x77, payload: [1, 2, 3, 4, 5, 6] });
    let (_, ma) = Ma::from_bytes((&[0x31, 1, 2, 3, 4, 5, 6], 0)).unwrap();
    assert_eq!(ma, Ma::TcasRaBroadcast { payload: [1, 2, 3, 4, 5, 6] });
}

#[test]
fn reads_frame_at_bit_offset() {
    // The UF0 frame shifted right by four bits.
    let bytes = [0x00, 0x00, 0x00, 0x00, 0x07, 0x21, 0x95, 0x10];
    let ((rest, off), payload) = UplinkFormat::from_bytes((&bytes, 4)).unwrap();
    assert_eq!(payload.number(), 0);
    assert_eq!(rest, &[][..]);
    assert_eq!(off, 4);
    match payload {
        UplinkFormat::Uf0(uf0) => assert_eq!(uf0.ap, Icao24(0x4b1618)),
        _ => panic!("wrong UF"),
    }
    // The step that runs out of data: the rest of the frame ...
    assert!(matches!(
        UplinkFormat::from_bytes((&[0x80, 0], 0)),
        Err(DecodeError::Incomplete(104))
    ));
    assert!(matches!(
        UplinkFormat::from_bytes((&[0x00, 0, 0], 3)),
        Err(DecodeError::Incomplete(48))
    ));
    // ... the first byte ...
    assert!(matches!(UplinkFormat::from_bytes((&[], 0)), Err(DecodeError::Incomplete(8))));
    assert!(matches!(UplinkFormat::from_bytes((&[0xff], 3)), Err(DecodeError::Incomplete(8))));
    assert!(matches!(UplinkFormat::from_bytes((&[0, 0], 16)), Err(DecodeError::Incomplete(8))));
    // ... or the bits before the frame in its first byte.
    assert!(matches!(UplinkFormat::from_bytes((&[0, 0], 19)), Err(DecodeError::Incomplete(3))));
}

#[test]
fn uf16_resolution_message_mid_and_unknown_kind() {
    let frame = [
        0x80, 0x00, 0x00, 0x00, 0x30, 0x00, 0x00, 0x00, 0xab, 0xcd, 0xef, 0, 0, 0,
    ];
    let parsed = uf16::decode(&frame, 0xd23f7c).unwrap();
    assert_eq!(parsed.acas.kind, MuKind::ResolutionMessage);
    assert_eq!(parsed.acas.mid.as_deref(), Some("abcdef"));
    assert_eq!(uf16::decode_mu(&frame), parsed.acas);
    let frame = [
        0x80, 0x00, 0x00, 0x00, 0x31, 0x00, 0x00, 0x00, 0xab, 0xcd, 0xef, 0, 0, 0,
    ];
    let parsed = uf16::decode(&frame, 0xd23f7c).unwrap();
    assert_eq!(parsed.acas.kind, MuKind::RaBroadcast);
    assert_eq!(parsed.acas.mid, None);
    assert_eq!((parsed.acas.uds1, parsed.acas.uds2), (3, 1));
}

#[test]
fn icao24_text_round_trip() {
    assert_eq!(Icao24(0x4b1618).to_text(), "4b1618");
    assert_eq!(Icao24(0x00abcd).to_text(), "00abcd");
    assert_eq!(Icao24(0x1234_5678).to_text(), "12345678");
    assert_eq!("4b1618".parse::<Icao24>(), Ok(Icao24(0x4b1618)));
    assert_eq!("+4B1618".parse::<Icao24>(), Ok(Icao24(0x4b1618)));
    assert_eq!("ffffffff".parse::<Icao24>(), Ok(Icao24(u32::MAX)));
    assert_eq!("100000000".parse::<Icao24>(), Err(InvalidIcao24));
    assert_eq!("".parse::<Icao24>(), Err(InvalidIcao24));
    assert_eq!("+".parse::<Icao24>(), Err(InvalidIcao24));
    assert_eq!("4g".parse::<Icao24>(), Err(InvalidIcao24));
    let a = Icao24(0x0a0b0c);
    assert_eq!(a.to_text().parse::<Icao24>(), Ok(a));
}

#[test]
fn payload_format_field_matches_format() {
    let frames: &[&[u8]] = &[
        &[0x20, 0, 0, 0, 0x12, 0x34, 0x56],
        &[0x28, 0, 0, 0, 0x12, 0x34, 0x56],
        &[0x58, 0, 0, 0, 0x12, 0x34, 0x56],
        &[0x80, 0, 0, 0, 0x30, 0, 0, 0, 0, 0, 0, 0x12, 0x34, 0x56],
        &[0xa0, 0, 0, 0, 1, 2, 3, 4, 5, 6, 7, 0x12, 0x34, 0x56],
        &[0xa8, 0, 0, 0, 1, 2, 3, 4, 5, 6, 7, 0x12, 0x34, 0x56],
        &[0xff, 1, 2, 3, 4, 5, 6, 7, 8, 9, 10, 0x12, 0x34, 0x56],
        &[0x08, 0, 0, 0, 0x12, 0x34, 0x56],
    ];
    for frame in frames {
        let decoded = decode_frame(frame).unwrap();
        let field = match &decoded.payload {
            UplinkFormat::Uf0(v) => v.uf,
            UplinkFormat::Uf4(v) => v.uf,
            UplinkFormat::Uf5(v) => v.uf,
            UplinkFormat::Uf11(v) => v.uf,
            UplinkFormat::Uf16(v) => v.uf,
            UplinkFormat::Uf20(v) => v.uf,
            UplinkFormat::Uf21(v) => v.uf,
            UplinkFormat::Uf24(v) => {
                assert_eq!(v.uf_prefix, 3);
                24
            }
            UplinkFormat::Unknown { uf } => *uf,
        };
        assert_eq!(field, decoded.uf());
        assert_eq!(field, if frame[0] >> 3 >= 24 { 24 } else { frame[0] >> 3 });
    }
}

#[test]
fn every_format_carries_recovered_address() {
    let frames: &[&[u8]] = &[
        &[0x00, 0, 0, 0, 0x72, 0x19, 0x51],
        &[0x58, 0, 0, 0, 0x12, 0x34, 0x56],
        &[0x80, 0x80, 0, 0, 0x32, 0, 0, 0, 0x4b, 0x18, 0x04, 0xd2, 0x3f, 0x7c],
        &[0xa8, 0, 0, 0, 1, 2, 3, 4, 5, 6, 7, 0x12, 0x34, 0x56],
        &[0xc0, 1, 2, 3, 4, 5, 6, 7, 8, 9, 10, 0x12, 0x34, 0x56],
    ];
    for frame in frames {
        let expected = Icao24(recover_ap_address(frame, 8 * frame.len()));
        let ap = match decode_frame(frame).unwrap().payload {
            UplinkFormat::Uf0(v) => v.ap,
            UplinkFormat::Uf11(v) => v.ap,
            UplinkFormat::Uf16(v) => v.ap,
            UplinkFormat::Uf21(v) => v.ap,
            UplinkFormat::Uf24(v) => v.ap,
            _ => panic!("wrong UF"),
        };
        assert_eq!(ap, expected);
    }
}

#[test]
fn from_bytes_matches_decode_frame() {
    let streams: &[&[u8]] = &[
        &[0x00, 0, 0, 0, 0x72, 0x19, 0x51, 0xaa, 0xbb],
        &[0xa0, 0, 0, 0, 1, 2, 3, 4, 5, 6, 7, 0x12, 0x34, 0x56],
        &[0x80, 0x80, 0, 0, 0x32, 0, 0, 0, 0x4b, 0x18, 0x04, 0xd2, 0x3f, 0x7c, 0x01],
    ];
    for d in streams {
        let ((rest, off), payload) = UplinkFormat::from_bytes((d, 0)).unwrap();
        let m = d.len() - rest.len();
        assert_eq!(off, 0);
        assert_eq!(decode_frame(&d[..m]).unwrap().payload, payload);
    }
}
