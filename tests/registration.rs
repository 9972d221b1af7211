use canbus_ingest::config::SensorKind;
use canbus_ingest::dispatch::{
    Action, Dispatcher, Frame, Notice, Row, CONFIG_CLIENT, CONFIG_SERVER, RESET_BYTE,
};

fn frame(id: u32, data: &[u8]) -> Frame {
    Frame { extended: false, id, data: data.to_vec() }
}

fn sent(a: &Action) -> (u32, Vec<u8>) {
    match a {
        Action::Send { id, data } => (*id, data.clone()),
        _ => panic!("expected a send"),
    }
}

fn register(d: &mut Dispatcher, config: &[u8]) -> Vec<Action> {
    let acts = d.on_frame(&frame(CONFIG_CLIENT, &[1, 2, 3]));
    assert_eq!(acts.len(), 2);
    let mut last = Vec::new();
    for chunk in config.chunks(8) {
        last = d.on_frame(&frame(0x123, chunk));
    }
    last
}

#[test]
fn start_broadcasts_reset() {
    let d = Dispatcher::new();
    assert_eq!(sent(&d.start()), (CONFIG_SERVER, vec![RESET_BYTE]));
}

#[test]
fn complete_handshake_binds_thermal_probe() {
    let mut d = Dispatcher::new();
    let acts = d.on_frame(&frame(CONFIG_CLIENT, &[1, 2, 3]));
    assert_eq!(acts.len(), 2);
    assert_eq!(sent(&acts[0]), (CONFIG_SERVER, vec![1, 2, 3]));
    assert_eq!(sent(&acts[1]), (CONFIG_SERVER, vec![5]));
    let text = b"ID:dev1,TYPE:THERMAL_PROBE\n";
    let mut last = Vec::new();
    for chunk in text.chunks(8) {
        last = d.on_frame(&frame(0x10, chunk));
    }
    assert_eq!(last.len(), 1);
    assert!(matches!(last[0], Action::EnsureSchema(SensorKind::Thermal)));
    assert_eq!(d.sensor_kind(5), None);
    let done = d.on_schema(true);
    assert!(matches!(
        done[0],
        Action::Report(Notice::Registered { sensor_id: 5, kind: SensorKind::Thermal, .. })
    ));
    assert_eq!(d.sensor_kind(5), Some(SensorKind::Thermal));
    assert_eq!(d.next_sensor_id(), 6);
    assert!(d.is_idle());
    let out = d.on_frame(&frame(5, &23.5f32.to_le_bytes()));
    match &out[0] {
        Action::Store(Row::Thermal(r)) => assert_eq!(f32::from_bits(r.celsius_bits), 23.5),
        _ => panic!("expected a thermal row"),
    }
}

#[test]
fn unknown_type_leaves_registry_unchanged() {
    let mut d = Dispatcher::new();
    let last = register(&mut d, b"ID:dev9,TYPE:UNKNOWN_X\n");
    assert_eq!(last.len(), 1);
    assert!(matches!(last[0], Action::Report(Notice::ConfigRejected(_))));
    assert_eq!(d.next_sensor_id(), 5);
    assert_eq!(d.sensor_kind(5), None);
    assert!(d.is_idle());
}

#[test]
fn schema_failure_abandons_registration() {
    let mut d = Dispatcher::new();
    register(&mut d, b"ID:g,TYPE:GPS_GNSS7\n");
    let acts = d.on_schema(false);
    assert!(matches!(acts[0], Action::Report(Notice::SchemaFailed(SensorKind::Gps))));
    assert_eq!(d.next_sensor_id(), 5);
    assert_eq!(d.sensor_kind(5), None);
}

#[test]
fn transport_error_aborts_config_gathering() {
    let mut d = Dispatcher::new();
    d.on_frame(&frame(CONFIG_CLIENT, &[7]));
    d.on_frame(&frame(0x20, b"ID:x"));
    assert!(!d.is_idle());
    d.on_transport_error();
    assert!(d.is_idle());
    assert_eq!(d.next_sensor_id(), 5);
}

#[test]
fn identifiers_advance_per_registration() {
    let mut d = Dispatcher::new();
    register(&mut d, b"ID:a,TYPE:ACC_MPU9250\n");
    d.on_schema(true);
    register(&mut d, b"ID:b,TYPE:GPS_GNSS7\n");
    d.on_schema(true);
    assert_eq!(d.sensor_kind(5), Some(SensorKind::Imu));
    assert_eq!(d.sensor_kind(6), Some(SensorKind::Gps));
    assert_eq!(d.next_sensor_id(), 7);
}

#[test]
fn exhausted_identifiers_halt() {
    let mut d = Dispatcher::with_first_id(0xfe);
    let acts = d.on_frame(&frame(CONFIG_CLIENT, &[1]));
    assert_eq!(acts.len(), 1);
    assert!(matches!(acts[0], Action::Halt));
    assert!(d.is_idle());
}

#[test]
fn last_assignable_identifier_is_handed_out() {
    let mut d = Dispatcher::with_first_id(0xfd);
    let acts = d.on_frame(&frame(CONFIG_CLIENT, &[1]));
    assert_eq!(sent(&acts[1]), (CONFIG_SERVER, vec![0xfd]));
}

#[test]
fn unregistered_and_extended_frames() {
    let mut d = Dispatcher::new();
    let acts = d.on_frame(&frame(0x42, &[1]));
    assert!(matches!(acts[0], Action::Report(Notice::Unregistered(0x42))));
    let acts = d.on_frame(&frame(0x305, &[1]));
    assert!(matches!(acts[0], Action::Report(Notice::Unregistered(0x305))));
    let acts = d.on_frame(&Frame { extended: true, id: CONFIG_CLIENT, data: vec![1] });
    assert!(acts.is_empty());
    assert!(d.is_idle());
    assert!(d.on_frame(&frame(CONFIG_SERVER, &[1])).is_empty());
}

#[test]
fn imu_sensor_routes_rows_and_errors() {
    let mut d = Dispatcher::new();
    register(&mut d, b"ID:a,TYPE:ACC_MPU9250\n");
    d.on_schema(true);
    assert!(d.on_frame(&frame(5, &[b'a', 0, 0x3c, 0, 0, 0, 0])).is_empty());
    let acts = d.on_frame(&frame(5, &[b'g', 0, 0x40, 0, 0, 0, 0]));
    match &acts[0] {
        Action::Store(Row::Imu(r)) => {
            assert_eq!(r.accel.x, 0x3c00);
            assert_eq!(r.gyro.x, 0x4000);
        }
        _ => panic!("expected an imu row"),
    }
    let acts = d.on_frame(&frame(5, &[b'q', 0, 0, 0, 0, 0, 0]));
    assert!(matches!(acts[0], Action::Report(Notice::Imu(_))));
}

#[test]
fn send_failure_abandons_registration_and_drops_sends() {
    let mut d = Dispatcher::new();
    let mut acts = d.on_frame(&frame(CONFIG_CLIENT, &[1, 2]));
    acts.remove(0);
    acts.push(Action::Report(Notice::GpsRejected));
    let rest = d.on_send_failed(acts);
    assert_eq!(rest.len(), 1);
    assert!(matches!(rest[0], Action::Report(Notice::GpsRejected)));
    assert!(d.is_idle());
    assert_eq!(d.next_sensor_id(), 5);
}

#[test]
fn nbsp_before_type_still_binds() {
    let mut d = Dispatcher::new();
    let mut text = b"ID:d,TYPE:".to_vec();
    text.extend_from_slice("\u{a0}GPS_GNSS7\n".as_bytes());
    let last = register(&mut d, &text);
    assert!(matches!(last[0], Action::EnsureSchema(SensorKind::Gps)));
}

#[test]
fn imu_state_is_kept_between_frames() {
    let mut d = Dispatcher::new();
    register(&mut d, b"ID:a,TYPE:ACC_MPU9250\n");
    d.on_schema(true);
    d.on_frame(&frame(5, &[b'm', 1, 0, 2, 0, 3, 0]));
    d.on_frame(&frame(0x77, &[9]));
    let acts = d.on_frame(&frame(5, &[b'g', 0, 0, 0, 0, 0, 0]));
    match &acts[0] {
        Action::Store(Row::Imu(r)) => {
            assert_eq!((r.mag.x, r.mag.y, r.mag.z), (1, 2, 3));
        }
        _ => panic!("expected an imu row"),
    }
}

#[test]
fn gps_sensor_stores_a_row_per_closed_cycle() {
    let mut d = Dispatcher::new();
    register(&mut d, b"ID:g,TYPE:GPS_GNSS7\n");
    d.on_schema(true);
    let sentence = b"$GPGLL,5107.0013414,N,11402.3279144,W,205412.00,A,A*73\n";
    let mut acts = Vec::new();
    for chunk in sentence.chunks(8) {
        acts.extend(d.on_frame(&frame(5, chunk)));
    }
    assert_eq!(acts.len(), 1);
    assert!(matches!(acts[0], Action::Store(Row::Gps(_))));
    let bad = d.on_frame(&frame(5, b"$GPX*00\n"));
    assert!(matches!(bad[0], Action::Report(Notice::GpsRejected)));
}
