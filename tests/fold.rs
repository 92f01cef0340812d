use reitunes::{Event, EventWithMetadata, Library, Position, UtcDateTime};

fn at(second: i8) -> UtcDateTime {
    UtcDateTime { year: 2024, month: 5, day: 17, hour: 10, minute: 0, second, subsec_nanosecond: 0 }
}

fn envelope(id: u128, item: u128, second: i8, event: Event) -> EventWithMetadata {
    EventWithMetadata {
        id,
        aggregate_id: item,
        aggregate_type: "LibraryItem".to_string(),
        created_time_utc: at(second),
        machine_name: "test-host".to_string(),
        event,
    }
}

fn created(name: &str, path: &str) -> Event {
    Event::LibraryItemCreatedEvent {
        name: name.to_string(),
        artist: None,
        album: None,
        file_path: path.to_string(),
    }
}

fn bookmark_added(bookmark_id: u128, secs: u64) -> Event {
    Event::LibraryItemBookmarkAddedEvent { bookmark_id, position: Position::from_secs(secs) }
}

fn bookmark_order(library: &Library, item: u128) -> Vec<u128> {
    library.items[&item].bookmarks.keys().copied().collect()
}

fn sample_log() -> Vec<EventWithMetadata> {
    vec![
        envelope(1, 100, 0, created("Song A", "a.mp3")),
        envelope(2, 100, 1, bookmark_added(7, 50)),
        envelope(3, 100, 2, bookmark_added(8, 10)),
        envelope(4, 100, 3, Event::LibraryItemPlayedEvent),
        envelope(5, 200, 4, created("Song B", "b.mp3")),
        envelope(6, 200, 5, Event::LibraryItemArtistChangedEvent { new_artist: "Band".to_string() }),
        envelope(7, 100, 6, bookmark_added(9, 30)),
    ]
}

#[test]
fn replay_twice_gives_identical_library() {
    let first = Library::build_from_events(sample_log());
    let second = Library::build_from_events(sample_log());
    assert_eq!(first.items, second.items);
    assert_eq!(bookmark_order(&first, 100), bookmark_order(&second, 100));
    for id in [7u128, 8, 9] {
        assert_eq!(
            first.items[&100].bookmarks[&id].emoji,
            second.items[&100].bookmarks[&id].emoji
        );
    }
}

#[test]
fn incremental_apply_matches_rebuild() {
    let log = sample_log();
    let rebuilt = Library::build_from_events(sample_log());
    let mut incremental = Library::build_from_events(log[..3].to_vec());
    for e in &log[3..] {
        incremental.apply(e);
    }
    assert_eq!(incremental.items, rebuilt.items);
    assert_eq!(bookmark_order(&incremental, 100), bookmark_order(&rebuilt, 100));
}

#[test]
fn bookmarks_sorted_by_position_after_each_add() {
    let mut library = Library::new();
    library.apply(&envelope(1, 100, 0, created("Song A", "a.mp3")));
    let adds = [(1u128, 90u64), (2, 30), (3, 60), (4, 10), (5, 60)];
    for (n, (bookmark_id, secs)) in adds.iter().enumerate() {
        library.apply(&envelope(10 + n as u128, 100, 1, bookmark_added(*bookmark_id, *secs)));
        let positions: Vec<u64> =
            library.items[&100].bookmarks.values().map(|b| b.position.secs).collect();
        let mut sorted = positions.clone();
        sorted.sort();
        assert_eq!(positions, sorted);
    }
    assert_eq!(bookmark_order(&library, 100), vec![4, 2, 3, 5, 1]);
}

#[test]
fn re_adding_a_bookmark_moves_it() {
    let mut library = Library::new();
    library.apply(&envelope(1, 100, 0, created("Song A", "a.mp3")));
    library.apply(&envelope(2, 100, 1, bookmark_added(1, 10)));
    library.apply(&envelope(3, 100, 2, bookmark_added(2, 20)));
    library.apply(&envelope(4, 100, 3, bookmark_added(1, 30)));
    assert_eq!(bookmark_order(&library, 100), vec![2, 1]);
    assert_eq!(library.items[&100].bookmarks[&1].position, Position::from_secs(30));
}

#[test]
fn play_count_equals_played_events() {
    let mut log = vec![envelope(1, 100, 0, created("Song A", "a.mp3"))];
    for n in 0..5u128 {
        log.push(envelope(10 + n, 100, 1, Event::LibraryItemPlayedEvent));
    }
    log.push(envelope(20, 200, 2, Event::LibraryItemPlayedEvent));
    let library = Library::build_from_events(log);
    assert_eq!(library.items[&100].play_count, 5);
    assert!(!library.items.contains_key(&200));
}

#[test]
fn play_count_restarts_when_recreated() {
    let log = vec![
        envelope(1, 100, 0, created("Song A", "a.mp3")),
        envelope(2, 100, 1, Event::LibraryItemPlayedEvent),
        envelope(3, 100, 2, created("Song A2", "a2.mp3")),
        envelope(4, 100, 3, Event::LibraryItemPlayedEvent),
    ];
    let library = Library::build_from_events(log);
    assert_eq!(library.items[&100].play_count, 1);
    assert_eq!(library.items[&100].name, "Song A2");
}

#[test]
fn artist_change_for_unknown_item_is_ignored() {
    let mut library = Library::build_from_events(sample_log());
    let before = library.items.clone();
    library.apply(&envelope(
        50,
        999,
        9,
        Event::LibraryItemArtistChangedEvent { new_artist: "Nobody".to_string() },
    ));
    assert_eq!(library.items, before);
    assert!(!library.items.contains_key(&999));
}

#[test]
fn create_play_delete_removes_item() {
    let log = vec![
        envelope(1, 100, 0, created("Song A", "a.mp3")),
        envelope(2, 100, 1, Event::LibraryItemPlayedEvent),
        envelope(3, 100, 2, Event::LibraryItemPlayedEvent),
        envelope(4, 100, 3, Event::LibraryItemDeletedEvent),
    ];
    let partial = Library::build_from_events(log[..3].to_vec());
    assert_eq!(partial.items[&100].play_count, 2);
    let library = Library::build_from_events(log);
    assert!(!library.items.contains_key(&100));
    assert!(library.items.is_empty());
}

#[test]
fn bookmark_lifecycle_keeps_only_remaining() {
    let log = vec![
        envelope(1, 100, 0, created("Song A", "a.mp3")),
        envelope(2, 100, 1, bookmark_added(0xB1, 90)),
        envelope(3, 100, 2, bookmark_added(0xB2, 30)),
        envelope(4, 100, 3, Event::LibraryItemBookmarkDeletedEvent { bookmark_id: 0xB1 }),
    ];
    let library = Library::build_from_events(log);
    let item = &library.items[&100];
    assert_eq!(item.bookmarks.len(), 1);
    assert_eq!(bookmark_order(&library, 100), vec![0xB2]);
    assert_eq!(item.bookmarks[&0xB2].position, Position::from_secs(30));
}

#[test]
fn created_fields_default_to_empty() {
    let library = Library::build_from_events(vec![envelope(1, 100, 0, created("Song A", "a.mp3"))]);
    let item = &library.items[&100];
    assert_eq!(item.id, 100);
    assert_eq!(item.name, "Song A");
    assert_eq!(item.file_path, "a.mp3");
    assert_eq!(item.artist, "");
    assert_eq!(item.album, "");
    assert_eq!(item.play_count, 0);
    assert!(item.bookmarks.is_empty());
    assert_eq!(item.created_time_utc, at(0));
}

#[test]
fn created_keeps_artist_and_album() {
    let event = Event::LibraryItemCreatedEvent {
        name: "Song".to_string(),
        artist: Some("Artist".to_string()),
        album: Some("Album".to_string()),
        file_path: "s.mp3".to_string(),
    };
    let library = Library::build_from_events(vec![envelope(1, 100, 0, event)]);
    assert_eq!(library.items[&100].artist, "Artist");
    assert_eq!(library.items[&100].album, "Album");
}

#[test]
fn field_changes_apply() {
    let log = vec![
        envelope(1, 100, 0, created("Song A", "a.mp3")),
        envelope(2, 100, 1, Event::LibraryItemNameChangedEvent { new_name: "New".to_string() }),
        envelope(3, 100, 2, Event::LibraryItemFilePathChangedEvent { new_file_path: "n.mp3".to_string() }),
        envelope(4, 100, 3, Event::LibraryItemAlbumChangedEvent { new_album: "LP".to_string() }),
    ];
    let library = Library::build_from_events(log);
    let item = &library.items[&100];
    assert_eq!(item.name, "New");
    assert_eq!(item.file_path, "n.mp3");
    assert_eq!(item.album, "LP");
}

#[test]
fn bookmark_emoji_is_set_and_unknown_bookmark_ignored() {
    let mut library = Library::build_from_events(vec![
        envelope(1, 100, 0, created("Song A", "a.mp3")),
        envelope(2, 100, 1, bookmark_added(5, 10)),
        envelope(3, 100, 2, bookmark_added(6, 20)),
    ]);
    library.apply(&envelope(4, 100, 3, Event::LibraryItemBookmarkSetEmojiEvent {
        bookmark_id: 5,
        emoji: "X".to_string(),
    }));
    let before = library.items.clone();
    library.apply(&envelope(5, 100, 4, Event::LibraryItemBookmarkSetEmojiEvent {
        bookmark_id: 77,
        emoji: "Y".to_string(),
    }));
    assert_eq!(library.items, before);
    assert_eq!(library.items[&100].bookmarks[&5].emoji, "X");
    assert_eq!(library.items[&100].bookmarks[&5].position, Position::from_secs(10));
    assert_eq!(bookmark_order(&library, 100), vec![5, 6]);
}

#[test]
fn bookmark_emoji_comes_from_ids() {
    // (0 ^ 5) % 12 picks the sixth emoji of the palette.
    assert_eq!(reitunes::library::bookmark_emoji(0, 5), "🎹");
    // (12 ^ 1) % 12 == 13 % 12 == 1.
    assert_eq!(reitunes::library::bookmark_emoji(12, 1), "🎶");
    assert_eq!(reitunes::library::bookmark_emoji(3, 3), "🎵");
    let library = Library::build_from_events(vec![
        envelope(1, 0, 0, created("Song A", "a.mp3")),
        envelope(2, 0, 1, bookmark_added(11, 10)),
    ]);
    assert_eq!(library.items[&0].bookmarks[&11].emoji, "🎻");
}

#[test]
fn item_url_prefixes_storage() {
    let library = Library::build_from_events(vec![envelope(1, 100, 0, created("Song A", "dir/a.mp3"))]);
    assert_eq!(
        library.items[&100].url(),
        "https://reitunes.blob.core.windows.net/music/dir/a.mp3"
    );
}

#[test]
fn random_bookmark_none_without_bookmarks() {
    let library = Library::build_from_events(vec![envelope(1, 100, 0, created("Song A", "a.mp3"))]);
    assert_eq!(library.random_bookmark(), None);
    assert_eq!(Library::new().random_bookmark(), None);
}

#[test]
fn random_bookmark_picks_an_existing_one() {
    let library = Library::build_from_events(sample_log());
    for _ in 0..20 {
        let (item, bookmark) = library.random_bookmark().unwrap();
        assert_eq!(item, 100);
        assert!([7u128, 8, 9].contains(&bookmark));
    }
}

#[test]
fn pick_wraps_around() {
    let all = vec![(1u128, 2u128), (3, 4), (5, 6)];
    assert_eq!(reitunes::library::pick(&all, 4), Some((3, 4)));
    assert_eq!(reitunes::library::pick(&all, 2), Some((5, 6)));
    assert_eq!(reitunes::library::pick(&Vec::new(), 9), None);
}

#[test]
fn new_event_is_stamped() {
    let e = EventWithMetadata::new(42, Event::LibraryItemPlayedEvent).unwrap();
    assert_eq!(e.aggregate_id, 42);
    assert_eq!(e.aggregate_type, "LibraryItem");
    assert_eq!(e.event, Event::LibraryItemPlayedEvent);
    assert_eq!((e.id >> 76) & 0xf, 4);
    assert!(e.created_time_utc.month >= 1 && e.created_time_utc.month <= 12);
    let other = EventWithMetadata::new(42, Event::LibraryItemPlayedEvent).unwrap();
    assert_ne!(e.id, other.id);
}

#[test]
fn stamp_keeps_every_field() {
    let e = EventWithMetadata::stamp(
        42,
        Event::LibraryItemDeletedEvent,
        7,
        at(3),
        "host-a".to_string(),
    );
    assert_eq!(e, EventWithMetadata {
            id: 7,
            aggregate_id: 42,
            aggregate_type: "LibraryItem".to_string(),
            created_time_utc: at(3),
            machine_name: "host-a".to_string(),
            event: Event::LibraryItemDeletedEvent,
        });
}
