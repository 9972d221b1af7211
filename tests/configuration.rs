use canbus_ingest::config::{parse_config, parse_config_fields, ConfigError, SensorKind};

#[test]
fn parses_thermal_config() {
    let c = parse_config(&b"ID:dev1,TYPE:THERMAL_PROBE\n".to_vec()).ok().unwrap();
    assert_eq!(c.kind, SensorKind::Thermal);
    assert_eq!(c.device_id, b"dev1".to_vec());
}

#[test]
fn parses_each_known_type_with_spaces() {
    let c = parse_config(&b"ID: gps-7 ,TYPE: GPS_GNSS7 \r\n".to_vec()).ok().unwrap();
    assert_eq!(c.kind, SensorKind::Gps);
    assert_eq!(c.device_id, b"gps-7".to_vec());
    let c = parse_config(&b"ID:imu,TYPE:ACC_MPU9250,extra\n".to_vec()).ok().unwrap();
    assert_eq!(c.kind, SensorKind::Imu);
}

#[test]
fn repeated_keys_are_all_removed() {
    let c = parse_config_fields(&b"ID:ID:x,TYPE:TYPE:THERMAL_PROBE".to_vec()).ok().unwrap();
    assert_eq!(c.device_id, b"x".to_vec());
    assert_eq!(c.kind, SensorKind::Thermal);
}

#[test]
fn type_match_is_case_sensitive() {
    match parse_config(&b"ID:a,TYPE:gps_gnss7\n".to_vec()) {
        Err(ConfigError::UnknownType(t)) => assert_eq!(t, b"gps_gnss7".to_vec()),
        _ => panic!("expected an unknown type"),
    }
}

#[test]
fn missing_type_field_is_an_error() {
    assert!(matches!(parse_config(&b"ID:a\n".to_vec()), Err(ConfigError::MissingType)));
    assert!(matches!(parse_config(&Vec::new()), Err(ConfigError::MissingType)));
}

#[test]
fn invalid_utf8_is_an_error() {
    assert!(matches!(
        parse_config(&vec![0xff, 0xfe, b',', b'\n']),
        Err(ConfigError::NotUtf8)
    ));
}

#[test]
fn key_is_stripped_before_trimming() {
    assert!(matches!(
        parse_config(&b"ID:a, TYPE:GPS_GNSS7\n".to_vec()),
        Err(ConfigError::UnknownType(_))
    ));
}

#[test]
fn unicode_white_space_is_trimmed() {
    let mut text = b"ID:\xe2\x80\x83d\xe3\x80\x80,TYPE:".to_vec();
    text.extend_from_slice("\u{a0}GPS_GNSS7\u{2028}\n".as_bytes());
    let c = parse_config(&text).ok().unwrap();
    assert_eq!(c.kind, SensorKind::Gps);
    assert_eq!(c.device_id, b"d".to_vec());
    let c = parse_config(&"ID:x,TYPE:\u{85}ACC_MPU9250\u{205f}\n".as_bytes().to_vec()).ok().unwrap();
    assert_eq!(c.kind, SensorKind::Imu);
}

#[test]
fn non_space_unicode_is_kept() {
    match parse_config(&"ID:x,TYPE:\u{e9}GPS_GNSS7\n".as_bytes().to_vec()) {
        Err(ConfigError::UnknownType(t)) => assert_eq!(t, "\u{e9}GPS_GNSS7".as_bytes().to_vec()),
        _ => panic!("expected an unknown type"),
    }
}
