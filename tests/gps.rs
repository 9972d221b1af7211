use canbus_ingest::gps::{sentence_verdict, FixKind, GpsDecoder, GpsEvent, Verdict};

#[test]
fn gll_sentence_closes_a_cycle() {
    let mut d = GpsDecoder::new();
    let s = b"\0\0$GPGLL,5107.0013414,N,11402.3279144,W,205412.00,A,A*73\n";
    let mut events = Vec::new();
    for chunk in s.chunks(8) {
        events.extend(d.decode(chunk));
    }
    assert_eq!(events.len(), 1);
    match &events[0] {
        GpsEvent::Fix(f) => {
            assert_eq!(f.kind, FixKind::Gps);
            assert!(f.fields.latitude.is_some());
        }
        _ => panic!("expected a fix"),
    }
}

#[test]
fn other_sentences_are_absorbed() {
    let mut d = GpsDecoder::new();
    let s = b"$GPGGA,092750.000,5321.6802,N,00630.3372,W,1,8,1.03,61.7,M,55.2,M,,*76\n";
    let events = d.decode(s);
    assert_eq!(events.len(), 1);
    assert!(matches!(events[0], GpsEvent::Absorbed));
}

#[test]
fn bad_checksum_is_rejected() {
    let mut d = GpsDecoder::new();
    let events = d.decode(b"$GPGLL,5107.0013414,N,11402.3279144,W,205412.00,A,A*00\n");
    assert!(matches!(events[0], GpsEvent::Rejected));
}

#[test]
fn non_utf8_sentence_is_skipped() {
    let mut d = GpsDecoder::new();
    let events = d.decode(&[b'$', 0xff, b'\n']);
    assert_eq!(events.len(), 1);
    assert!(matches!(events[0], GpsEvent::NotText));
}

#[test]
fn verdicts() {
    let gll = b"GLL".to_vec();
    assert_eq!(sentence_verdict(&None, &gll, Some(FixKind::Gps)), Verdict::Rejected);
    assert_eq!(sentence_verdict(&Some(b"GGA".to_vec()), &gll, Some(FixKind::Gps)), Verdict::Absorbed);
    assert_eq!(sentence_verdict(&Some(b"GLL".to_vec()), &gll, None), Verdict::FixTypeMissing);
    assert_eq!(
        sentence_verdict(&Some(b"GLL".to_vec()), &gll, Some(FixKind::Rtk)),
        Verdict::Flush(FixKind::Rtk)
    );
}

#[test]
fn fix_kind_names() {
    assert_eq!(FixKind::Invalid.name(), "Invalid");
    assert_eq!(FixKind::FloatRtk.name(), "FloatRtk");
    assert_eq!(FixKind::Simulation.name(), "Simulation");
}

fn with_checksum(body: &str) -> Vec<u8> {
    let sum = body.bytes().fold(0u8, |a, b| a ^ b);
    format!("${}*{:02X}\n", body, sum).into_bytes()
}

#[test]
fn gsv_with_large_sentence_number_is_refused_and_does_not_crash() {
    let mut d = GpsDecoder::new();
    let big = with_checksum("GPGSV,20,15,80,01,40,083,46");
    assert!(matches!(d.decode(&big)[0], GpsEvent::Refused));
    let big2 = with_checksum("GPGSV,3,015,80,01,40,083,46");
    assert!(matches!(d.decode(&big2)[0], GpsEvent::Refused));
    for _ in 0..20 {
        let small = with_checksum("GPGSV,3,14,11,01,40,083,46");
        assert!(matches!(d.decode(&small)[0], GpsEvent::Absorbed));
    }
}

#[test]
fn non_ascii_sentence_is_rejected() {
    let mut d = GpsDecoder::new();
    let events = d.decode("$GPGLL,\u{e9}*00\n".as_bytes());
    assert!(matches!(events[0], GpsEvent::Rejected));
}

#[test]
fn gsa_with_thirteen_satellite_fields_is_refused() {
    let mut d = GpsDecoder::new();
    let over = with_checksum("GPGSA,A,3,01,02,03,04,05,06,07,08,09,10,11,12,1,1,1");
    let events = d.decode(&over);
    assert_eq!(events.len(), 1);
    assert!(matches!(events[0], GpsEvent::Refused));
    let many = with_checksum("GNGSA,A,3,01,02,03,04,05,06,07,08,09,10,11,12,13,14,,,,,,,,,,,1.0,1.0,1.0");
    assert!(matches!(d.decode(&many)[0], GpsEvent::Refused));
}

#[test]
fn ordinary_gsa_sentences_are_absorbed() {
    let mut d = GpsDecoder::new();
    let full = with_checksum("GPGSA,A,3,01,02,03,04,05,06,07,08,09,10,11,12,1.5,0.9,1.2");
    assert!(matches!(d.decode(&full)[0], GpsEvent::Absorbed));
    let empty = with_checksum("GPGSA,A,1,,,,,,,,,,,,,,,,");
    assert!(matches!(d.decode(&empty)[0], GpsEvent::Absorbed));
}
