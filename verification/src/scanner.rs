//! What a scan of the model folders finds.

use crate::gguf::GgufMetadata;
use crate::text::opt_view;
use vstd::prelude::*;

verus! {

/// A model file on disk.
#[derive(Debug, Clone)]
pub struct ModelEntry {
    pub path: String,
    pub file_name: String,
    pub size_bytes: u64,
    /// Where it was found.
    pub source: String,
    /// A readable name, where the file name is not one.
    pub display_name: Option<String>,
    /// A later part of a model that is split over several files.
    pub is_shard_continuation: bool,
    pub shard_total: Option<u64>,
    /// A vision projector.
    pub is_mmproj: bool,
    /// The header, where it could be read.
    pub metadata: Option<GgufMetadata>,
    pub parse_error: Option<String>,
    /// Why the runtime would refuse to load it.
    pub load_blocker: Option<String>,
}

/// A folder that is scanned for models.
#[derive(Debug, Clone)]
pub struct ScanRoot {
    pub path: String,
    /// What put it there.
    pub source: String,
    pub exists: bool,
}

/// A place where a file may be, and whether it is there.
#[derive(Debug, Clone)]
pub struct Place {
    pub path: String,
    pub is_file: bool,
}

/// The first place, from index `i` on, with a file.
pub open spec fn first_file(places: Seq<Place>, i: int) -> Option<Seq<char>>
    decreases places.len() - i,
{
    if i < 0 || i >= places.len() {
        None
    } else if places[i].is_file {
        Some(places[i].path@)
    } else {
        first_file(places, i + 1)
    }
}

/// The first place with a file.
pub fn find_file(places: &Vec<Place>) -> (r: Option<String>)
    ensures
        opt_view(r) == first_file(places@, 0),
{
    for i in 0..places.len()
        invariant
            first_file(places@, 0) == first_file(places@, i as int),
    {
        if places[i].is_file {
            return Some(places[i].path.clone());
        }
    }
    None
}

/// The file that is found is there, and none that comes before it is; nothing is
/// found only where there is none.
pub proof fn law_first_file_is_found(places: Seq<Place>)
    ensures
        match first_file(places, 0) {
            Some(path) => exists|k: int|
                0 <= k < places.len() && (#[trigger] places[k]).is_file && places[k].path@ == path
                    && forall|j: int| 0 <= j < k ==> !(#[trigger] places[j]).is_file,
            None => forall|j: int| 0 <= j < places.len() ==> !(#[trigger] places[j]).is_file,
        },
{
    lemma_first_file(places, 0);
}

proof fn lemma_first_file(places: Seq<Place>, i: int)
    requires
        0 <= i <= places.len(),
        forall|j: int| 0 <= j < i ==> !(#[trigger] places[j]).is_file,
    ensures
        match first_file(places, i) {
            Some(path) => exists|k: int|
                0 <= k < places.len() && (#[trigger] places[k]).is_file && places[k].path@ == path
                    && forall|j: int| 0 <= j < k ==> !(#[trigger] places[j]).is_file,
            None => forall|j: int| 0 <= j < places.len() ==> !(#[trigger] places[j]).is_file,
        },
    decreases places.len() - i,
{
    if i < places.len() && !places[i].is_file {
        lemma_first_file(places, i + 1);
    }
}

} // verus!
