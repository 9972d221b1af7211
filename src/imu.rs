use vstd::prelude::*;

verus! {

/// Label byte of an accelerometer frame (`a`).
pub const LABEL_ACCEL: u8 = 0x61;

/// Label byte of a magnetometer frame (`m`).
pub const LABEL_MAG: u8 = 0x6d;

/// Label byte of a gyroscope frame (`g`), the last group of a reading cycle.
pub const LABEL_GYRO: u8 = 0x67;

/// Length of an IMU frame: one label byte and three little-endian half floats.
pub const IMU_FRAME_LEN: usize = 7;

/// X, Y and Z of one axis group, each the bit pattern of an IEEE-754 half float.
#[derive(Clone, Copy, Debug, PartialEq, Eq, Structural)]
pub struct Triple {
    pub x: u16,
    pub y: u16,
    pub z: u16,
}

/// The latest reading of each axis group.
#[derive(Clone, Copy, Debug, PartialEq, Eq, Structural)]
pub struct ImuRow {
    pub accel: Triple,
    pub mag: Triple,
    pub gyro: Triple,
}

#[derive(Clone, Copy, Debug, PartialEq, Eq, Structural)]
pub enum ImuError {
    /// The payload is not exactly one label byte and three half floats long.
    WrongLength,
    /// The label byte names no axis group.
    UnknownLabel(u8),
}

pub open spec fn le_u16(lo: u8, hi: u8) -> u16 {
    (lo as int + 256 * (hi as int)) as u16
}

pub open spec fn zero_triple() -> Triple {
    Triple { x: 0, y: 0, z: 0 }
}

/// The three components carried by an IMU payload after its label byte.
pub open spec fn triple_of(p: Seq<u8>) -> Triple {
    Triple { x: le_u16(p[1], p[2]), y: le_u16(p[3], p[4]), z: le_u16(p[5], p[6]) }
}

/// Decoding `p` with `latest` buffered: the new buffer and the row emitted, if any.
pub open spec fn imu_step(latest: ImuRow, p: Seq<u8>) -> Result<(ImuRow, Option<ImuRow>), ImuError> {
    if p.len() != IMU_FRAME_LEN {
        Err(ImuError::WrongLength)
    } else if p[0] == LABEL_ACCEL {
        Ok((ImuRow { accel: triple_of(p), ..latest }, None))
    } else if p[0] == LABEL_MAG {
        Ok((ImuRow { mag: triple_of(p), ..latest }, None))
    } else if p[0] == LABEL_GYRO {
        let next = ImuRow { gyro: triple_of(p), ..latest };
        Ok((next, Some(next)))
    } else {
        Err(ImuError::UnknownLabel(p[0]))
    }
}

/// Accelerometer, magnetometer and gyroscope frames in that order emit one row, on
/// the gyroscope frame, that holds the three triples in that order.
pub proof fn lemma_cycle_emits_once(latest: ImuRow, pa: Seq<u8>, pm: Seq<u8>, pg: Seq<u8>)
    requires
        pa.len() == IMU_FRAME_LEN && pa[0] == LABEL_ACCEL,
        pm.len() == IMU_FRAME_LEN && pm[0] == LABEL_MAG,
        pg.len() == IMU_FRAME_LEN && pg[0] == LABEL_GYRO,
    ensures
        imu_step(latest, pa) is Ok && imu_step(latest, pa)->Ok_0.1 is None,
        imu_step(imu_step(latest, pa)->Ok_0.0, pm) is Ok,
        imu_step(imu_step(latest, pa)->Ok_0.0, pm)->Ok_0.1 is None,
        imu_step(imu_step(imu_step(latest, pa)->Ok_0.0, pm)->Ok_0.0, pg) is Ok,
        imu_step(imu_step(imu_step(latest, pa)->Ok_0.0, pm)->Ok_0.0, pg)->Ok_0.1 == Some(
            ImuRow { accel: triple_of(pa), mag: triple_of(pm), gyro: triple_of(pg) },
        ),
{
}

/// A gyroscope frame on a fresh decoder emits a row whose accelerometer and
/// magnetometer groups are zero.
pub proof fn lemma_gyro_alone_has_zero_groups(pg: Seq<u8>)
    requires
        pg.len() == IMU_FRAME_LEN && pg[0] == LABEL_GYRO,
    ensures
        imu_step(ImuDecoder::initial(), pg) == Ok::<(ImuRow, Option<ImuRow>), ImuError>(
            (
                ImuRow { accel: zero_triple(), mag: zero_triple(), gyro: triple_of(pg) },
                Some(ImuRow { accel: zero_triple(), mag: zero_triple(), gyro: triple_of(pg) }),
            ),
        ),
{
}

/// Decodes accelerometer, magnetometer and gyroscope frames of a 9-axis IMU,
/// keeping the latest reading of each group.
pub struct ImuDecoder {
    pub latest: ImuRow,
}

fn read_le_u16(lo: u8, hi: u8) -> (r: u16)
    ensures
        r == le_u16(lo, hi),
{
    lo as u16 + (hi as u16) * 256
}

impl ImuDecoder {
    pub open spec fn initial() -> ImuRow {
        ImuRow { accel: zero_triple(), mag: zero_triple(), gyro: zero_triple() }
    }

    /// A decoder whose groups all read zero.
    pub fn new() -> (d: ImuDecoder)
        ensures
            d.latest == Self::initial(),
    {
        let z = Triple { x: 0, y: 0, z: 0 };
        ImuDecoder { latest: ImuRow { accel: z, mag: z, gyro: z } }
    }

    /// Stores the group that `payload` carries; a gyroscope frame also emits the
    /// row of all three latest groups. A rejected payload changes nothing.
    pub fn decode(&mut self, payload: &[u8]) -> (r: Result<Option<ImuRow>, ImuError>)
        ensures
            match imu_step(old(self).latest, payload@) {
                Ok(step) => r == Ok::<Option<ImuRow>, ImuError>(step.1) && final(self).latest
                    == step.0,
                Err(e) => r == Err::<Option<ImuRow>, ImuError>(e) && final(self).latest == old(
                    self,
                ).latest,
            },
    {
        if payload.len() != IMU_FRAME_LEN {
            return Err(ImuError::WrongLength);
        }
        let t = Triple {
            x: read_le_u16(payload[1], payload[2]),
            y: read_le_u16(payload[3], payload[4]),
            z: read_le_u16(payload[5], payload[6]),
        };
        let label = payload[0];
        if label == LABEL_ACCEL {
            self.latest.accel = t;
            Ok(None)
        } else if label == LABEL_MAG {
            self.latest.mag = t;
            Ok(None)
        } else if label == LABEL_GYRO {
            self.latest.gyro = t;
            Ok(Some(self.latest))
        } else {
            Err(ImuError::UnknownLabel(label))
        }
    }
}

} // verus!
