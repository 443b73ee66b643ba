//! CAN bit-timing record codec.
//!
//! The kernel describes bus timing as a fixed record of eight 32-bit
//! fields, laid out back to back with no padding: 32 bytes in the byte
//! order of the machine (little-endian on the platforms this library
//! supports), carried as the flat payload of one attribute.

use vstd::prelude::*;

use crate::codec::{
    lemma_u32_le_round_trip, push_u32_le, read_u32_le, spec_u32_from_le, spec_u32_le,
};

verus! {

/// CAN bit-timing parameters, byte-exact against the kernel's ABI.
///
/// Rates are in bits per second, the sample point in tenths of a percent,
/// the time quantum in nanoseconds, and the segment widths in time quanta.
#[allow(non_camel_case_types)]
#[derive(Debug, Clone, Copy, PartialEq, Eq, Structural)]
pub struct can_bittiming {
    pub bitrate: u32,
    pub sample_point: u32,
    pub tq: u32,
    pub prop_seg: u32,
    pub phase_seg1: u32,
    pub phase_seg2: u32,
    pub sjw: u32,
    pub brp: u32,
}

/// The 32-byte wire form of a bit-timing record.
pub open spec fn spec_timing_encode(t: can_bittiming) -> Seq<u8> {
    spec_u32_le(t.bitrate) + spec_u32_le(t.sample_point) + spec_u32_le(t.tq) + spec_u32_le(
        t.prop_seg,
    ) + spec_u32_le(t.phase_seg1) + spec_u32_le(t.phase_seg2) + spec_u32_le(t.sjw) + spec_u32_le(
        t.brp,
    )
}

/// The record held in a 32-byte buffer; anything of another length is not
/// a bit-timing record.
pub open spec fn spec_timing_decode(b: Seq<u8>) -> Option<can_bittiming> {
    if b.len() == 32 {
        Some(
            can_bittiming {
                bitrate: spec_u32_from_le(b[0], b[1], b[2], b[3]),
                sample_point: spec_u32_from_le(b[4], b[5], b[6], b[7]),
                tq: spec_u32_from_le(b[8], b[9], b[10], b[11]),
                prop_seg: spec_u32_from_le(b[12], b[13], b[14], b[15]),
                phase_seg1: spec_u32_from_le(b[16], b[17], b[18], b[19]),
                phase_seg2: spec_u32_from_le(b[20], b[21], b[22], b[23]),
                sjw: spec_u32_from_le(b[24], b[25], b[26], b[27]),
                brp: spec_u32_from_le(b[28], b[29], b[30], b[31]),
            },
        )
    } else {
        None
    }
}

impl can_bittiming {
    /// Serialize the record to its 32-byte wire form.
    pub fn encode(&self) -> (r: Vec<u8>)
        ensures
            r@ == spec_timing_encode(*self),
            r@.len() == 32,
    {
        let mut out: Vec<u8> = Vec::new();
        push_u32_le(&mut out, self.bitrate);
        push_u32_le(&mut out, self.sample_point);
        push_u32_le(&mut out, self.tq);
        push_u32_le(&mut out, self.prop_seg);
        push_u32_le(&mut out, self.phase_seg1);
        push_u32_le(&mut out, self.phase_seg2);
        push_u32_le(&mut out, self.sjw);
        push_u32_le(&mut out, self.brp);
        assert(out@ =~= spec_timing_encode(*self));
        out
    }

    /// Read a record back from its wire form.
    pub fn decode(b: &[u8]) -> (r: Option<can_bittiming>)
        ensures
            r == spec_timing_decode(b@),
    {
        if b.len() != 32 {
            return None;
        }
        Some(
            can_bittiming {
                bitrate: read_u32_le(b, 0),
                sample_point: read_u32_le(b, 4),
                tq: read_u32_le(b, 8),
                prop_seg: read_u32_le(b, 12),
                phase_seg1: read_u32_le(b, 16),
                phase_seg2: read_u32_le(b, 20),
                sjw: read_u32_le(b, 24),
                brp: read_u32_le(b, 28),
            },
        )
    }
}

/// Decoding an encoded record gives the record back.
pub proof fn lemma_timing_round_trip(t: can_bittiming)
    ensures
        spec_timing_decode(spec_timing_encode(t)) == Some(t),
{
    lemma_u32_le_round_trip(t.bitrate);
    lemma_u32_le_round_trip(t.sample_point);
    lemma_u32_le_round_trip(t.tq);
    lemma_u32_le_round_trip(t.prop_seg);
    lemma_u32_le_round_trip(t.phase_seg1);
    lemma_u32_le_round_trip(t.phase_seg2);
    lemma_u32_le_round_trip(t.sjw);
    lemma_u32_le_round_trip(t.brp);
}

} // verus!
