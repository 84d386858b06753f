//! The retention policy: of the images in the artifact directory, only those
//! of today stay.

use crate::paths::{
    date_tag,
    date_tag_text,
    extension,
    extension_of,
    file_name,
    file_name_of,
    lemma_mosaic_names,
    mosaic_file_name_text,
    with_suffix,
    BORDERED_SUFFIX,
};
use crate::text::{contains, is_substring, occurs_at, same_text};
use crate::time::{calendar_of, civil_at, CivilTime};
use vstd::prelude::*;

verus! {

/// The extension of the images that the sweep looks at.
pub const IMAGE_EXTENSION: &'static str = "png";

/// An entry of the artifact directory: its name, and whether it is a directory.
#[derive(Debug, PartialEq, Eq)]
pub struct ArtifactEntry {
    pub name: String,
    pub is_directory: bool,
}

/// The entry is an image that does not carry today's date tag. Directories
/// are never stale, whatever they are called, nor is anything but an image.
pub open spec fn is_stale(name: Seq<char>, is_directory: bool, today: Seq<char>) -> bool {
    &&& !is_directory
    &&& extension_of(file_name_of(name)) == IMAGE_EXTENSION@
    &&& !is_substring(today, file_name_of(name))
}

/// Whether the sweep deletes the entry.
pub fn stale(name: &str, is_directory: bool, today: &str) -> (doomed: bool)
    ensures
        doomed == is_stale(name@, is_directory, today@),
{
    if is_directory {
        return false;
    }
    if !same_text(extension(name), IMAGE_EXTENSION) {
        return false;
    }
    !contains(file_name(name), today)
}

/// The `i`-th of `entries` is stale.
pub open spec fn stale_at(entries: Seq<ArtifactEntry>, i: int, today: Seq<char>) -> bool {
    0 <= i < entries.len() && is_stale(entries[i].name@, entries[i].is_directory, today)
}

/// The positions of the stale entries among `entries`, in rising order:
/// what the sweep deletes.
pub fn stale_entries(entries: &Vec<ArtifactEntry>, today: &str) -> (doomed: Vec<usize>)
    ensures
        forall|k: int|
            0 <= k < doomed@.len() ==> stale_at(entries@, #[trigger] doomed@[k] as int, today@),
        forall|i: int| #[trigger]
            stale_at(entries@, i, today@) ==> exists|k: int|
                0 <= k < doomed@.len() && doomed@[k] == i,
        forall|j: int, k: int| 0 <= j < k < doomed@.len() ==> doomed@[j] < doomed@[k],
{
    let mut doomed: Vec<usize> = Vec::new();
    let mut i: usize = 0;
    while i < entries.len()
        invariant
            i <= entries@.len(),
            forall|k: int|
                0 <= k < doomed@.len() ==> (#[trigger] doomed@[k]) < i && stale_at(
                    entries@,
                    doomed@[k] as int,
                    today@,
                ),
            forall|e: int|
                e < i && #[trigger] stale_at(entries@, e, today@) ==> exists|k: int|
                    0 <= k < doomed@.len() && doomed@[k] == e,
            forall|j: int, k: int| 0 <= j < k < doomed@.len() ==> doomed@[j] < doomed@[k],
        decreases entries@.len() - i,
    {
        let entry = &entries[i];
        if stale(entry.name.as_str(), entry.is_directory, today) {
            let ghost before = doomed@;
            doomed.push(i);
            assert forall|e: int| e < i + 1 && #[trigger] stale_at(entries@, e, today@) implies exists|
                k: int,
            | 0 <= k < doomed@.len() && doomed@[k] == e by {
                if e < i {
                    let k = choose|k: int| 0 <= k < before.len() && before[k] == e;
                    assert(doomed@[k] == e);
                } else {
                    assert(doomed@[before.len() as int] == e);
                }
            }
        }
        i = i + 1;
    }
    doomed
}

/// The date tag of the UTC day on which the instant `now` falls; none where
/// the calendar does not reach.
pub open spec fn today_tag_of(now: int) -> Option<Seq<char>> {
    match civil_at(now) {
        Some(today) => Some(
            date_tag_text(today.year as int, today.month as nat, today.day as nat),
        ),
        None => None,
    }
}

/// The date tag of the UTC day on which a UNIX timestamp falls: what the
/// sweep at that instant takes for today. `None` where the calendar does not
/// reach.
pub fn today_tag_at(now: i64) -> (tag: Option<String>)
    ensures
        match tag {
            Some(tag) => today_tag_of(now as int) == Some(tag@),
            None => today_tag_of(now as int) is None,
        },
{
    match calendar_of(now) {
        Some(today) => Some(date_tag(today.year, today.month, today.day)),
        None => None,
    }
}

/// A directory is never swept away, whatever it is called.
pub proof fn lemma_directories_stay(name: Seq<char>, today: Seq<char>)
    ensures
        !is_stale(name, true, today),
{
}

/// An entry whose file name holds today's date tag is never swept away.
pub proof fn lemma_tagged_entries_stay(name: Seq<char>, is_directory: bool, today: Seq<char>)
    requires
        is_substring(today, file_name_of(name)),
    ensures
        !is_stale(name, is_directory, today),
{
}

/// The mosaic and the bordered mosaic of an imagery timestamp are not swept
/// away on the day of that timestamp.
pub proof fn lemma_todays_mosaics_stay(at: CivilTime)
    ensures
        !is_stale(
            mosaic_file_name_text(at),
            false,
            date_tag_text(at.year as int, at.month as nat, at.day as nat),
        ),
        !is_stale(
            with_suffix(mosaic_file_name_text(at), BORDERED_SUFFIX@),
            false,
            date_tag_text(at.year as int, at.month as nat, at.day as nat),
        ),
{
    lemma_mosaic_names(at);
    let tag = date_tag_text(at.year as int, at.month as nat, at.day as nat);
    assert(occurs_at(tag, file_name_of(mosaic_file_name_text(at)), 6));
    assert(occurs_at(
        tag,
        file_name_of(with_suffix(mosaic_file_name_text(at), BORDERED_SUFFIX@)),
        6,
    ));
}

} // verus!
