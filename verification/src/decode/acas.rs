//! Summary of the UF16 ACAS `MU` field with `MID` as a number.
use super::util::read_u8;
use crate::bits::{bits_value, extract_bits};
use vstd::prelude::*;

verus! {

/// Classification of the `MU` field by its `UDS` nibbles.
#[derive(Debug, Clone, PartialEq, Eq)]
pub enum MuKind {
    ResolutionMessage,
    RaBroadcast,
    AcasBroadcast,
    Unknown,
}

/// `MU` summary: `UDS1`, `UDS2`, their classification, and `MID` (bits
/// 64-87 of the frame) for resolution messages and ACAS broadcasts.
#[derive(Debug, Clone, PartialEq, Eq)]
pub struct AcasMu {
    pub uds1: u8,
    pub uds2: u8,
    pub kind: MuKind,
    pub mid: Option<u32>,
}

/// The `MU` kind of a (`UDS1`, `UDS2`) pair.
pub open spec fn kind_of(uds1: u8, uds2: u8) -> MuKind {
    if uds1 == 3 && uds2 == 0 {
        MuKind::ResolutionMessage
    } else if uds1 == 3 && uds2 == 1 {
        MuKind::RaBroadcast
    } else if uds1 == 3 && uds2 == 2 {
        MuKind::AcasBroadcast
    } else {
        MuKind::Unknown
    }
}

/// The `MU` summary of a UF16 frame.
pub open spec fn acas_mu_spec(f: Seq<u8>) -> AcasMu {
    let uds1 = bits_value(f, 32, 4) as u8;
    let uds2 = bits_value(f, 36, 4) as u8;
    let kind = kind_of(uds1, uds2);
    AcasMu {
        uds1,
        uds2,
        kind,
        mid: if kind == MuKind::ResolutionMessage || kind == MuKind::AcasBroadcast {
            Some(bits_value(f, 64, 24) as u32)
        } else {
            None
        },
    }
}

/// Summarise the `MU` field (bits 32-87) of a UF16 frame.
pub fn decode_mu(frame: &[u8]) -> (mu: AcasMu)
    requires
        frame@.len() >= 11,
    ensures
        mu == acas_mu_spec(frame@),
{
    let uds1 = read_u8(frame, 32, 4);
    let uds2 = read_u8(frame, 36, 4);
    let kind = if uds1 == 3 && uds2 == 0 {
        MuKind::ResolutionMessage
    } else if uds1 == 3 && uds2 == 1 {
        MuKind::RaBroadcast
    } else if uds1 == 3 && uds2 == 2 {
        MuKind::AcasBroadcast
    } else {
        MuKind::Unknown
    };
    let mid = match kind {
        MuKind::ResolutionMessage | MuKind::AcasBroadcast => Some(extract_bits(frame, 64, 24)),
        _ => None,
    };
    AcasMu { uds1, uds2, kind, mid }
}

} // verus!
