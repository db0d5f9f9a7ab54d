use build_a_bitorrent_tracker::event::{parse_event, Event, EventParseError};
use build_a_bitorrent_tracker::number::{parse_usize, IntErrorKind};
use build_a_bitorrent_tracker::protocol::tcp::{
    deserialize_bool, deserialize_optional_event, deserialize_optional_fields,
    deserialize_optional_numwant, deserialize_url_encode, is_info_hash_field, scrape_info_hashes,
    BoolParseError, UrlEncodeError,
};

#[test]
fn event_spellings() {
    for (text, e) in [
        ("Started", Event::Started),
        ("started", Event::Started),
        ("STARTED", Event::Started),
        ("Stopped", Event::Stopped),
        ("stopped", Event::Stopped),
        ("STOPPED", Event::Stopped),
        ("Completed", Event::Completed),
        ("completed", Event::Completed),
        ("COMPLETED", Event::Completed),
    ] {
        assert_eq!(parse_event(text.as_bytes()), Ok(e));
    }
}

#[test]
fn event_unknown_is_error() {
    assert_eq!(parse_event(b"sTarted"), Err(EventParseError(b"sTarted".to_vec())));
    assert_eq!(parse_event(b"empty"), Err(EventParseError(b"empty".to_vec())));
    assert_eq!(
        EventParseError(b"x".to_vec()).message(),
        b"Could not parse event: x".to_vec()
    );
}

#[test]
fn event_names_round_trip() {
    for e in [Event::Started, Event::Stopped, Event::Completed] {
        assert_eq!(parse_event(e.name().as_bytes()), Ok(e));
    }
    assert_eq!(Event::Completed.name(), "completed");
}

#[test]
fn numbers() {
    assert_eq!(parse_usize(b"42"), Ok(42));
    assert_eq!(parse_usize(b"+7"), Ok(7));
    assert_eq!(parse_usize(b"007"), Ok(7));
    assert_eq!(parse_usize(b""), Err(IntErrorKind::Empty));
    assert_eq!(parse_usize(b"+"), Err(IntErrorKind::InvalidDigit));
    assert_eq!(parse_usize(b"-"), Err(IntErrorKind::InvalidDigit));
    assert_eq!(parse_usize(b"-1"), Err(IntErrorKind::InvalidDigit));
    assert_eq!(parse_usize(b"12a"), Err(IntErrorKind::InvalidDigit));
    assert_eq!(parse_usize(b" 1"), Err(IntErrorKind::InvalidDigit));
    let max = usize::MAX.to_string();
    assert_eq!(parse_usize(max.as_bytes()), Ok(usize::MAX));
    let over = format!("{}0", usize::MAX);
    assert_eq!(parse_usize(over.as_bytes()), Err(IntErrorKind::PosOverflow));
    let over_then_bad = format!("{}0x", usize::MAX);
    assert_eq!(parse_usize(over_then_bad.as_bytes()), Err(IntErrorKind::PosOverflow));
}

#[test]
fn numbers_agree_with_std() {
    for text in ["0", "+0", "123", "", "+", "-", "-3", "1_0", "99999999999999999999999", "12+"] {
        let ours = parse_usize(text.as_bytes());
        let std = text.parse::<usize>();
        assert_eq!(ours.is_ok(), std.is_ok(), "{}", text);
        if let (Ok(a), Ok(b)) = (&ours, &std) {
            assert_eq!(a, b);
        }
    }
}

#[test]
fn flags() {
    for (t, v) in [("1", true), ("true", true), ("TRUE", true), ("0", false), ("false", false), ("FALSE", false)] {
        assert_eq!(deserialize_bool(t.as_bytes()), Ok(v));
    }
    assert_eq!(deserialize_bool(b"True"), Err(BoolParseError(b"True".to_vec())));
    assert_eq!(deserialize_bool(b""), Err(BoolParseError(Vec::new())));
}

#[test]
fn url_encoded_info_hash() {
    let raw = "%41".repeat(20);
    assert_eq!(deserialize_url_encode(raw.as_bytes()), Ok(vec![b'A'; 20]));
    let plain = [b'x'; 20];
    assert_eq!(deserialize_url_encode(&plain), Ok(plain.to_vec()));
    // An invalid escape stands for itself.
    let mixed = format!("%zz{}", "%ff".repeat(17));
    let mut expected = b"%zz".to_vec();
    expected.extend(std::iter::repeat(0xffu8).take(17));
    assert_eq!(deserialize_url_encode(mixed.as_bytes()), Ok(expected));
    assert_eq!(deserialize_url_encode(b"%41"), Err(UrlEncodeError));
    assert_eq!(
        UrlEncodeError.message(),
        "URL-encoded parameters should be 20 bytes in length"
    );
}

#[test]
fn optional_fields() {
    assert_eq!(deserialize_optional_fields(None), None);
    assert_eq!(deserialize_optional_fields(Some(b"")), None);
    assert_eq!(deserialize_optional_fields(Some(b"x")), Some(&b"x"[..]));
    assert_eq!(deserialize_optional_event(Some(b"")), Ok(None));
    assert_eq!(deserialize_optional_event(Some(b"stopped")), Ok(Some(Event::Stopped)));
    assert!(deserialize_optional_event(Some(b"none")).is_err());
    assert_eq!(deserialize_optional_numwant(None), Ok(None));
    assert_eq!(deserialize_optional_numwant(Some(b"50")), Ok(Some(50)));
    assert_eq!(deserialize_optional_numwant(Some(b"5x")), Err(IntErrorKind::InvalidDigit));
}

#[test]
fn info_hash_field_names() {
    assert!(is_info_hash_field(b"info_hash"));
    assert!(is_info_hash_field(b"INFO_Hash"));
    assert!(!is_info_hash_field(b"info-hash"));
    assert!(!is_info_hash_field(b"info_hashes"));
}

#[test]
fn scrape_query_reading() {
    assert!(scrape_info_hashes(&Vec::new()).is_none());
    let other = vec![(b"peer_id".to_vec(), b"x".to_vec())];
    assert!(scrape_info_hashes(&other).is_none());
    let good = "%42".repeat(20);
    let query = vec![
        (b"Info_Hash".to_vec(), good.as_bytes().to_vec()),
        (b"info_hash".to_vec(), b"short".to_vec()),
        (b"other".to_vec(), vec![b'c'; 20]),
        (b"info_hash".to_vec(), vec![b'd'; 20]),
    ];
    assert_eq!(scrape_info_hashes(&query), Some(vec![vec![b'B'; 20], vec![b'd'; 20]]));
    let only_bad = vec![(b"info_hash".to_vec(), b"short".to_vec())];
    assert_eq!(scrape_info_hashes(&only_bad), Some(Vec::new()));
}
