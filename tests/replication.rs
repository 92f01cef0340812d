use reitunes::{event_ids, events_to_append, merge_events, Event, EventWithMetadata, Library, UtcDateTime};

fn envelope(id: u128, item: u128) -> EventWithMetadata {
    EventWithMetadata {
        id,
        aggregate_id: item,
        aggregate_type: "LibraryItem".to_string(),
        created_time_utc: UtcDateTime {
            year: 2024,
            month: 1,
            day: 2,
            hour: 3,
            minute: 4,
            second: 5,
            subsec_nanosecond: id as i32,
        },
        machine_name: "remote".to_string(),
        event: if id == 1 {
            Event::LibraryItemCreatedEvent {
                name: "Song".to_string(),
                artist: None,
                album: None,
                file_path: "s.mp3".to_string(),
            }
        } else {
            Event::LibraryItemPlayedEvent
        },
    }
}

fn ids(log: &[EventWithMetadata]) -> Vec<u128> {
    log.iter().map(|e| e.id).collect()
}

#[test]
fn merge_appends_only_missing_events() {
    let mut local = vec![envelope(1, 10), envelope(2, 10)];
    let remote = vec![envelope(1, 10), envelope(2, 10), envelope(3, 10)];
    let count = merge_events(&mut local, remote);
    assert_eq!(count, 1);
    assert_eq!(ids(&local), vec![1, 2, 3]);
    assert_eq!(local[2], envelope(3, 10));
}

#[test]
fn second_sync_appends_nothing() {
    let mut local = vec![envelope(2, 10)];
    let remote = vec![envelope(1, 10), envelope(2, 10), envelope(3, 10), envelope(4, 10)];
    assert_eq!(merge_events(&mut local, remote.clone()), 3);
    let after_first = local.clone();
    assert_eq!(merge_events(&mut local, remote), 0);
    assert_eq!(local, after_first);
    assert_eq!(ids(&local), vec![2, 1, 3, 4]);
}

#[test]
fn sync_into_empty_store_takes_everything() {
    let mut local = Vec::new();
    let remote = vec![envelope(1, 10), envelope(2, 10)];
    assert_eq!(merge_events(&mut local, remote), 2);
    assert_eq!(ids(&local), vec![1, 2]);
    let library = Library::build_from_events(local);
    assert_eq!(library.items[&10].play_count, 1);
}

#[test]
fn sync_never_removes_local_events() {
    let mut local = vec![envelope(5, 10), envelope(6, 10)];
    assert_eq!(merge_events(&mut local, Vec::new()), 0);
    assert_eq!(ids(&local), vec![5, 6]);
}

#[test]
fn events_to_append_filters_known_ids() {
    let local = vec![envelope(1, 10), envelope(3, 10)];
    let known = event_ids(&local);
    assert_eq!(known.len(), 2);
    assert!(known.contains(&1) && known.contains(&3));
    let fresh = events_to_append(&known, vec![envelope(3, 10), envelope(4, 10), envelope(1, 10), envelope(2, 10)]);
    assert_eq!(ids(&fresh), vec![4, 2]);
}

#[test]
fn repeated_remote_event_is_appended_once() {
    let mut local = Vec::new();
    let remote = vec![envelope(1, 10), envelope(2, 10), envelope(1, 10), envelope(2, 10), envelope(3, 10)];
    assert_eq!(merge_events(&mut local, remote.clone()), 3);
    assert_eq!(ids(&local), vec![1, 2, 3]);
    assert_eq!(merge_events(&mut local, remote), 0);
    assert_eq!(ids(&local), vec![1, 2, 3]);
}

#[test]
fn events_to_append_keeps_first_of_each_new_id() {
    let known = event_ids(&vec![envelope(2, 10)]);
    let mut second = envelope(4, 10);
    second.machine_name = "other".to_string();
    let fresh = events_to_append(&known, vec![envelope(4, 10), envelope(2, 10), second, envelope(5, 10)]);
    assert_eq!(ids(&fresh), vec![4, 5]);
    assert_eq!(fresh[0].machine_name, "remote");
}
