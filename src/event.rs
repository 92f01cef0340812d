//! Domain events and the envelope that carries each one in the log.

use crate::error::LibraryError;
use crate::position::Position;
use vstd::prelude::*;
use vstd::string::StringExecFns;

verus! {

/// A calendar date and wall-clock time in UTC, to the nanosecond.
#[derive(Clone, Copy, Debug, PartialEq, Eq, Hash, Structural)]
pub struct UtcDateTime {
    pub year: i16,
    pub month: i8,
    pub day: i8,
    pub hour: i8,
    pub minute: i8,
    pub second: i8,
    pub subsec_nanosecond: i32,
}

impl UtcDateTime {
    /// Each field lies in its calendar range.
    pub open spec fn wf(self) -> bool {
        &&& -9999 <= self.year <= 9999
        &&& 1 <= self.month <= 12
        &&& 1 <= self.day <= 31
        &&& 0 <= self.hour <= 23
        &&& 0 <= self.minute <= 59
        &&& 0 <= self.second <= 59
        &&& 0 <= self.subsec_nanosecond <= 999_999_999
    }
}

/// A change to one library item. Each variant carries only what changed.
#[derive(Clone, Debug, PartialEq)]
pub enum Event {
    LibraryItemPlayedEvent,
    LibraryItemCreatedEvent {
        name: String,
        artist: Option<String>,
        album: Option<String>,
        file_path: String,
    },
    LibraryItemDeletedEvent,
    LibraryItemNameChangedEvent { new_name: String },
    LibraryItemFilePathChangedEvent { new_file_path: String },
    LibraryItemArtistChangedEvent { new_artist: String },
    LibraryItemAlbumChangedEvent { new_album: String },
    LibraryItemBookmarkAddedEvent { bookmark_id: u128, position: Position },
    LibraryItemBookmarkDeletedEvent { bookmark_id: u128 },
    LibraryItemBookmarkSetEmojiEvent { bookmark_id: u128, emoji: String },
}

/// The aggregate type of every library item event.
pub open spec fn library_item_type() -> Seq<char> {
    "LibraryItem"@
}

/// An event with its identity, the item it targets, when and where it was
/// produced.
#[derive(Clone, Debug, PartialEq)]
pub struct EventWithMetadata {
    /// Globally unique identity of the event; the key for deduplication.
    pub id: u128,
    /// The library item the event applies to.
    pub aggregate_id: u128,
    pub aggregate_type: String,
    pub created_time_utc: UtcDateTime,
    /// The host that produced the event.
    pub machine_name: String,
    pub event: Event,
}

/// Relies on `uuid::Uuid::new_v4`: a random identity whose version field is 4.
#[verifier::external_body]
fn new_random_id() -> (r: u128)
    ensures
        (r >> 76u128) & 0xfu128 == 4,
{
    uuid::Uuid::new_v4().as_u128()
}

/// Relies on `jiff::Zoned::now`, seen in UTC: the current date and time, each
/// field in its calendar range.
#[verifier::external_body]
fn utc_now() -> (r: UtcDateTime)
    ensures
        r.wf(),
{
    let now = jiff::Zoned::now().with_time_zone(jiff::tz::TimeZone::UTC).datetime();
    UtcDateTime {
        year: now.year(),
        month: now.month(),
        day: now.day(),
        hour: now.hour(),
        minute: now.minute(),
        second: now.second(),
        subsec_nanosecond: now.subsec_nanosecond(),
    }
}

/// Relies on `hostname::get`: the host's name, lossily decoded, or `None` when
/// it cannot be read.
#[verifier::external_body]
fn host_name() -> (r: Option<String>) {
    match hostname::get() {
        Ok(name) => Some(name.to_string_lossy().into_owned()),
        Err(_) => None,
    }
}

impl EventWithMetadata {
    /// The envelope of `event` for the item `library_item_id`, with identity
    /// `id`, made at `created_time_utc` on host `machine_name`.
    pub fn stamp(
        library_item_id: u128,
        event: Event,
        id: u128,
        created_time_utc: UtcDateTime,
        machine_name: String,
    ) -> (r: EventWithMetadata)
        ensures
            r.id == id,
            r.aggregate_id == library_item_id,
            r.aggregate_type@ == library_item_type(),
            r.created_time_utc == created_time_utc,
            r.machine_name == machine_name,
            r.event == event,
    {
        EventWithMetadata {
            id,
            aggregate_id: library_item_id,
            aggregate_type: String::from_str("LibraryItem"),
            created_time_utc,
            machine_name,
            event,
        }
    }

    /// Stamps `event` for the item `library_item_id` with a fresh random
    /// identity, the current UTC time and this host's name; fails only when the
    /// host's name cannot be read.
    pub fn new(library_item_id: u128, event: Event) -> (r: Result<EventWithMetadata, LibraryError>)
        ensures
            match r {
                Ok(e) => {
                    &&& e.aggregate_id == library_item_id
                    &&& e.event == event
                    &&& e.aggregate_type@ == library_item_type()
                    &&& e.created_time_utc.wf()
                    &&& (e.id >> 76u128) & 0xfu128 == 4
                },
                Err(err) => err == LibraryError::HostnameUnavailable,
            },
    {
        let created_time_utc = utc_now();
        let id = new_random_id();
        match host_name() {
            Some(machine_name) => Ok(Self::stamp(library_item_id, event, id, created_time_utc, machine_name)),
            None => Err(LibraryError::HostnameUnavailable),
        }
    }
}

} // verus!
