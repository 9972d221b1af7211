use vstd::prelude::*;

verus! {

/// Length of a thermal probe frame: one little-endian IEEE-754 single float.
pub const THERMAL_FRAME_LEN: usize = 4;

/// One temperature reading: the bit pattern of an IEEE-754 single float, in degrees Celsius.
#[derive(Clone, Copy, Debug, PartialEq, Eq, Structural)]
pub struct ThermalRow {
    pub celsius_bits: u32,
}

#[derive(Clone, Copy, Debug, PartialEq, Eq, Structural)]
pub enum ThermalError {
    /// The payload is not exactly four bytes long.
    WrongLength,
}

pub open spec fn le_u32(p: Seq<u8>) -> u32 {
    (p[0] as int + 0x100 * (p[1] as int) + 0x1_0000 * (p[2] as int) + 0x100_0000 * (
    p[3] as int)) as u32
}

/// Decodes thermal probe frames; it keeps nothing between frames.
pub struct ThermalDecoder {}

impl ThermalDecoder {
    pub fn new() -> (d: ThermalDecoder)
        ensures
            d == (ThermalDecoder {  }),
    {
        ThermalDecoder {  }
    }

    /// The reading that `payload` carries, one row per frame.
    pub fn decode(&self, payload: &[u8]) -> (r: Result<ThermalRow, ThermalError>)
        ensures
            payload@.len() == THERMAL_FRAME_LEN ==> r == Ok::<ThermalRow, ThermalError>(
                ThermalRow { celsius_bits: le_u32(payload@) },
            ),
            payload@.len() != THERMAL_FRAME_LEN ==> r == Err::<ThermalRow, ThermalError>(
                ThermalError::WrongLength,
            ),
    {
        if payload.len() != THERMAL_FRAME_LEN {
            return Err(ThermalError::WrongLength);
        }
        let bits = payload[0] as u32 + (payload[1] as u32) * 0x100 + (payload[2] as u32) * 0x1_0000
            + (payload[3] as u32) * 0x100_0000;
        Ok(ThermalRow { celsius_bits: bits })
    }
}

} // verus!
