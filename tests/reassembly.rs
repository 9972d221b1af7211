use canbus_ingest::reassembler::Reassembler;

fn feed_all(chunks: &[&[u8]]) -> (Vec<Vec<u8>>, Vec<u8>) {
    let mut r = Reassembler::new();
    let mut out = Vec::new();
    for c in chunks {
        out.extend(r.push(c));
    }
    (out, r.pending().clone())
}

#[test]
fn resync_discards_leading_nulls() {
    let (out, rest) = feed_all(&[b"\0\0\0$GPGLL,...\n"]);
    assert_eq!(out, vec![b"$GPGLL,...\n".to_vec()]);
    assert!(rest.is_empty());
}

#[test]
fn chunked_feed_matches_whole_feed() {
    let stream: &[u8] = b"\0\x01zz$GPGGA,1,2*00\n$GPGLL,3,4*11\n$GPRMC,5";
    let (whole, whole_rest) = feed_all(&[stream]);
    for size in 1..=9 {
        let chunks: Vec<&[u8]> = stream.chunks(size).collect();
        let (parts, rest) = feed_all(&chunks);
        assert_eq!(parts, whole, "chunk size {}", size);
        assert_eq!(rest, whole_rest);
    }
    assert_eq!(whole.len(), 2);
    assert_eq!(whole[0], b"$GPGGA,1,2*00\n".to_vec());
    assert_eq!(whole[1], b"$GPGLL,3,4*11\n".to_vec());
    assert_eq!(whole_rest, b"$GPRMC,5".to_vec());
}

#[test]
fn partial_sentence_stays_buffered() {
    let mut r = Reassembler::new();
    assert!(r.push(b"$GPG").is_empty());
    assert_eq!(r.pending(), &b"$GPG".to_vec());
    let out = r.push(b"LL\n");
    assert_eq!(out, vec![b"$GPGLL\n".to_vec()]);
    assert!(r.pending().is_empty());
}

#[test]
fn empty_input_yields_nothing() {
    let mut r = Reassembler::new();
    assert!(r.push(b"").is_empty());
    assert!(r.pending().is_empty());
}

#[test]
fn noise_without_marker_is_kept_until_marker_arrives() {
    let mut r = Reassembler::new();
    assert!(r.push(b"\0\0").is_empty());
    assert_eq!(r.pending(), &b"\0\0".to_vec());
    let out = r.push(b"$A\n");
    assert_eq!(out, vec![b"$A\n".to_vec()]);
}

#[test]
fn several_sentences_in_one_push() {
    let mut r = Reassembler::new();
    let out = r.push(b"$A\n$B\n$C");
    assert_eq!(out, vec![b"$A\n".to_vec(), b"$B\n".to_vec()]);
    assert_eq!(r.pending(), &b"$C".to_vec());
}

#[test]
fn terminator_in_noise_before_any_marker_is_yielded_when_fed_apart() {
    let (apart, _) = feed_all(&[b"\n", b"$A\n"]);
    assert_eq!(apart, vec![b"\n".to_vec(), b"$A\n".to_vec()]);
    let (whole, _) = feed_all(&[b"\n$A\n"]);
    assert_eq!(whole, vec![b"$A\n".to_vec()]);
}
