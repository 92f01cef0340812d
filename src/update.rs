//! Field updates requested by clients, turned into events.

use crate::error::LibraryError;
use crate::event::Event;
use vstd::prelude::*;
use vstd::string::{StrSliceExecFns, StringExecFns};

verus! {

/// Whether two texts are equal, character by character.
pub fn text_eq(a: &str, b: &str) -> (r: bool)
    ensures
        r == (a@ == b@),
{
    let n = a.unicode_len();
    if n != b.unicode_len() {
        return false;
    }
    let mut i: usize = 0;
    while i < n
        invariant
            n == a@.len() == b@.len(),
            i <= n,
            forall|j: int| 0 <= j < i ==> a@[j] == b@[j],
        decreases n - i,
    {
        if a.get_char(i) != b.get_char(i) {
            return false;
        }
        i = i + 1;
    }
    assert(a@ =~= b@);
    true
}


/// The event that sets `field` (`name`, `file_path`, `artist` or `album`) to
/// `value`; any other field is refused.
pub fn create_update_event(field: &str, value: &str) -> (r: Result<Event, LibraryError>)
    ensures
        field@ == "name"@ ==> (r matches Ok(Event::LibraryItemNameChangedEvent { new_name })
            && new_name@ == value@),
        field@ == "file_path"@ ==> (r matches Ok(Event::LibraryItemFilePathChangedEvent {
            new_file_path,
        }) && new_file_path@ == value@),
        field@ == "artist"@ ==> (r matches Ok(Event::LibraryItemArtistChangedEvent { new_artist })
            && new_artist@ == value@),
        field@ == "album"@ ==> (r matches Ok(Event::LibraryItemAlbumChangedEvent { new_album })
            && new_album@ == value@),
        (field@ != "name"@ && field@ != "file_path"@ && field@ != "artist"@ && field@ != "album"@)
            ==> r == Err::<Event, LibraryError>(LibraryError::UnknownField),
{
    proof {
        reveal_strlit("name");
        reveal_strlit("file_path");
        reveal_strlit("artist");
        reveal_strlit("album");
        assert("name"@.len() == 4 && "file_path"@.len() == 9 && "artist"@.len() == 6);
        assert("album"@.len() == 5);
    }
    if text_eq(field, "name") {
        Ok(Event::LibraryItemNameChangedEvent { new_name: String::from_str(value) })
    } else if text_eq(field, "file_path") {
        Ok(Event::LibraryItemFilePathChangedEvent { new_file_path: String::from_str(value) })
    } else if text_eq(field, "artist") {
        Ok(Event::LibraryItemArtistChangedEvent { new_artist: String::from_str(value) })
    } else if text_eq(field, "album") {
        Ok(Event::LibraryItemAlbumChangedEvent { new_album: String::from_str(value) })
    } else {
        Err(LibraryError::UnknownField)
    }
}

} // verus!
