use canbus_ingest::imu::{ImuDecoder, ImuError, Triple, LABEL_ACCEL, LABEL_GYRO, LABEL_MAG};
use canbus_ingest::thermal::{ThermalDecoder, ThermalError};
use half::f16;

fn imu_frame(label: u8, x: f32, y: f32, z: f32) -> Vec<u8> {
    let mut v = vec![label];
    for c in [x, y, z] {
        v.extend_from_slice(&f16::from_f32(c).to_le_bytes());
    }
    v
}

fn widen(t: Triple) -> [f32; 3] {
    [
        f16::from_bits(t.x).to_f32(),
        f16::from_bits(t.y).to_f32(),
        f16::from_bits(t.z).to_f32(),
    ]
}

#[test]
fn imu_full_cycle_emits_one_row() {
    let mut d = ImuDecoder::new();
    assert_eq!(d.decode(&imu_frame(LABEL_ACCEL, 1.0, 2.0, 3.0)), Ok(None));
    assert_eq!(d.decode(&imu_frame(LABEL_MAG, -0.5, 0.25, 4.0)), Ok(None));
    let row = d.decode(&imu_frame(LABEL_GYRO, 10.0, -2.5, 0.125)).unwrap().unwrap();
    assert_eq!(widen(row.accel), [1.0, 2.0, 3.0]);
    assert_eq!(widen(row.mag), [-0.5, 0.25, 4.0]);
    assert_eq!(widen(row.gyro), [10.0, -2.5, 0.125]);
}

#[test]
fn imu_gyro_alone_has_zero_groups() {
    let mut d = ImuDecoder::new();
    let row = d.decode(&imu_frame(LABEL_GYRO, 1.5, 2.5, 3.5)).unwrap().unwrap();
    assert_eq!(widen(row.accel), [0.0, 0.0, 0.0]);
    assert_eq!(widen(row.mag), [0.0, 0.0, 0.0]);
    assert_eq!(widen(row.gyro), [1.5, 2.5, 3.5]);
}

#[test]
fn imu_reads_little_endian_halves() {
    let mut d = ImuDecoder::new();
    let row = d.decode(&[LABEL_GYRO, 0x00, 0x3c, 0x00, 0xc0, 0x01, 0x02]).unwrap().unwrap();
    assert_eq!(row.gyro, Triple { x: 0x3c00, y: 0xc000, z: 0x0201 });
}

#[test]
fn imu_unknown_label_is_an_error_and_keeps_state() {
    let mut d = ImuDecoder::new();
    d.decode(&imu_frame(LABEL_ACCEL, 1.0, 1.0, 1.0)).unwrap();
    let before = d.latest;
    assert_eq!(d.decode(&imu_frame(b'x', 9.0, 9.0, 9.0)), Err(ImuError::UnknownLabel(b'x')));
    assert_eq!(d.latest, before);
}

#[test]
fn imu_wrong_length_is_an_error() {
    let mut d = ImuDecoder::new();
    assert_eq!(d.decode(&[LABEL_GYRO, 0, 0]), Err(ImuError::WrongLength));
    assert_eq!(d.decode(&[]), Err(ImuError::WrongLength));
}

#[test]
fn thermal_round_trip() {
    let d = ThermalDecoder::new();
    let row = d.decode(&23.5f32.to_le_bytes()).unwrap();
    assert_eq!(f32::from_bits(row.celsius_bits), 23.5);
}

#[test]
fn thermal_bits_are_little_endian() {
    let d = ThermalDecoder::new();
    assert_eq!(d.decode(&[0x01, 0x02, 0x03, 0x04]).unwrap().celsius_bits, 0x0403_0201);
}

#[test]
fn thermal_wrong_length_is_an_error() {
    let d = ThermalDecoder::new();
    assert_eq!(d.decode(&[1, 2, 3]), Err(ThermalError::WrongLength));
    assert_eq!(d.decode(&[1, 2, 3, 4, 5]), Err(ThermalError::WrongLength));
}
