use reitunes::{
    create_update_event, hash_with_rotating_salt, hash_with_salt, if_empty, or, or_err, rotating_salt, Event,
    LibraryError,
};

#[test]
fn if_empty_falls_back() {
    assert_eq!(if_empty("", "Unknown").unwrap(), "Unknown");
    assert_eq!(if_empty("Name", "Unknown").unwrap(), "Name");
}

#[test]
fn or_falls_back() {
    assert_eq!(or(&None, "none").unwrap(), "none");
    assert_eq!(or(&Some("x".to_string()), "none").unwrap(), "x");
}

#[test]
fn or_err_needs_a_value() {
    assert_eq!(or_err(&Some(7)).unwrap(), 7);
    let err = or_err(&None).unwrap_err();
    assert!(err.to_string().contains("Missing value"));
}

#[test]
fn update_events_for_known_fields() {
    assert_eq!(
        create_update_event("name", "N"),
        Ok(Event::LibraryItemNameChangedEvent { new_name: "N".to_string() })
    );
    assert_eq!(
        create_update_event("file_path", "p.mp3"),
        Ok(Event::LibraryItemFilePathChangedEvent { new_file_path: "p.mp3".to_string() })
    );
    assert_eq!(
        create_update_event("artist", "A"),
        Ok(Event::LibraryItemArtistChangedEvent { new_artist: "A".to_string() })
    );
    assert_eq!(
        create_update_event("album", "B"),
        Ok(Event::LibraryItemAlbumChangedEvent { new_album: "B".to_string() })
    );
}

#[test]
fn update_event_for_unknown_field_fails() {
    assert_eq!(create_update_event("play_count", "3"), Err(LibraryError::UnknownField));
    assert_eq!(create_update_event("Name", "N"), Err(LibraryError::UnknownField));
    assert_eq!(create_update_event("", "N"), Err(LibraryError::UnknownField));
}

#[test]
fn salt_names_year_and_quarter() {
    assert_eq!(rotating_salt(2024, 1), "2024-Q1");
    assert_eq!(rotating_salt(2024, 3), "2024-Q1");
    assert_eq!(rotating_salt(2024, 4), "2024-Q2");
    assert_eq!(rotating_salt(2025, 8), "2025-Q3");
    assert_eq!(rotating_salt(2025, 12), "2025-Q4");
    assert_eq!(rotating_salt(-44, 2), "-44-Q1");
    assert_eq!(rotating_salt(7, 16), "7-Error");
}

#[test]
fn salted_hash_is_sha256_hex() {
    assert_eq!(
        hash_with_salt("password", "2024-Q1"),
        "844565f89d7e1ee0e320346ea3376da6bbbcf97100fdb26b26c3edd3fb8cc59d"
    );
    let token = hash_with_rotating_salt("password");
    assert_eq!(token.len(), 64);
    assert!(token.chars().all(|c| c.is_ascii_hexdigit() && !c.is_ascii_uppercase()));
}
