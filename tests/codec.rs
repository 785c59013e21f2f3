use scrumple::vlq::{decode, encode};

fn enc(n: i64) -> String {
    let mut out = Vec::new();
    encode(n, &mut out);
    String::from_utf8(out).unwrap()
}

#[test]
fn vlq_encodes_known_values() {
    assert_eq!(enc(0), "A");
    assert_eq!(enc(1), "C");
    assert_eq!(enc(-1), "D");
    assert_eq!(enc(15), "e");
    assert_eq!(enc(16), "gB");
    assert_eq!(enc(-16), "hB");
    assert_eq!(enc(123), "2H");
    assert_eq!(enc(1000), "w+B");
}

#[test]
fn vlq_appends_to_existing_output() {
    let mut out = b"AA".to_vec();
    encode(16, &mut out);
    assert_eq!(out, b"AAgB".to_vec());
}

#[test]
fn vlq_round_trip_over_a_range() {
    for n in [-2147483647i64, -100000, -33, -32, -1, 0, 1, 31, 32, 1023, 65536, 2147483647] {
        let mut out = Vec::new();
        encode(n, &mut out);
        let len = out.len();
        out.extend_from_slice(b"xyz");
        assert_eq!(decode(&out, 0), Some((n, len)));
    }
}

#[test]
fn vlq_decode_at_offset_and_errors() {
    assert_eq!(decode(b"AAgBC", 2), Some((16, 4)));
    assert_eq!(decode(b"g", 0), None);
    assert_eq!(decode(b"", 0), None);
    assert_eq!(decode(b"!", 0), None);
    assert_eq!(decode(b"gggggggA", 0), None);
    assert_eq!(decode(b"ggggggA", 0), Some((0, 7)));
}
