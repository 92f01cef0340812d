//! An event-sourced media library: a catalog of items rebuilt by folding an
//! ordered log of domain events, with identity-deduplicated replication
//! between stores.

pub mod assets;
pub mod auth;
pub mod bookmarks;
pub mod duration_serde_dotnet;
pub mod error;
pub mod event;
pub mod filters;
pub mod library;
pub mod position;
pub mod sync;
pub mod update;

pub use assets::StaticFile;
pub use auth::{hash_with_rotating_salt, hash_with_salt, rotating_salt};
pub use bookmarks::Bookmark;
pub use error::LibraryError;
pub use event::{Event, EventWithMetadata, UtcDateTime};
pub use filters::{if_empty, or, or_err};
pub use library::{Library, LibraryItem};
pub use position::Position;
pub use sync::{event_ids, events_to_append, merge_events};
pub use update::create_update_event;
