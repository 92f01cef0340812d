use reitunes::duration_serde_dotnet::{deserialize, serialize};
use reitunes::{LibraryError, Position};

#[test]
fn serialize_pads_each_part() {
    assert_eq!(serialize(&Position { secs: 3723, nanos: 5 }), "01:02:03.000000005");
    assert_eq!(serialize(&Position::from_secs(60)), "00:01:00.000000000");
    assert_eq!(serialize(&Position { secs: 0, nanos: 0 }), "00:00:00.000000000");
    assert_eq!(serialize(&Position { secs: 360000, nanos: 999999999 }), "100:00:00.999999999");
}

#[test]
fn deserialize_legacy_text() {
    assert_eq!(deserialize("00:36:16.8991596"), Ok(Position { secs: 2176, nanos: 8991596 }));
    assert_eq!(deserialize("01:02:03.000000005"), Ok(Position { secs: 3723, nanos: 5 }));
    assert_eq!(deserialize("+1:2:3.4"), Ok(Position { secs: 3723, nanos: 4 }));
    assert_eq!(deserialize("0:0:0:7"), Ok(Position { secs: 0, nanos: 7 }));
}

#[test]
fn deserialize_round_trips_serialize() {
    for p in [
        Position { secs: 0, nanos: 0 },
        Position { secs: 90, nanos: 1 },
        Position { secs: 86399, nanos: 123456789 },
        Position { secs: 1_000_000, nanos: 500 },
    ] {
        assert_eq!(deserialize(&serialize(&p)), Ok(p));
    }
}

#[test]
fn deserialize_carries_large_nanos() {
    assert_eq!(deserialize("0:0:0.4294967295"), Ok(Position { secs: 4, nanos: 294967295 }));
}

#[test]
fn deserialize_rejects_malformed() {
    let bad = [
        "01:02:03",
        "1:2:3.4.5",
        "",
        "a:b:c.d",
        "1:2:x.4",
        "1:2::4",
        "-1:2:3.4",
        "+:2:3.4",
        "0:0:0.4294967296",
        "18446744073709551616:0:0.0",
        "5124095576030432:0:0.0",
        "1 :2:3.4",
    ];
    for text in bad {
        assert_eq!(deserialize(text), Err(LibraryError::MalformedDuration), "{}", text);
    }
}

#[test]
fn deserialize_largest_total() {
    assert_eq!(
        deserialize("0:0:18446744073709551615.0"),
        Ok(Position { secs: u64::MAX, nanos: 0 })
    );
    assert_eq!(deserialize("0:0:18446744073709551615.1000000000"), Err(LibraryError::MalformedDuration));
}
