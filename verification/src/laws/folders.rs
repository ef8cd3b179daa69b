//! Where a level is stored.

use crate::folder::{joined, LevelFolder};
use vstd::prelude::*;

verus! {

/// The regions of a level are stored in the folder of its root folder whose name is `region`.
pub proof fn law_regions_lie_in_the_root(folder: LevelFolder)
    requires
        folder.has_regions_in_root(),
    ensures
        folder.region_folder == joined(folder.root_folder, seq!['r', 'e', 'g', 'i', 'o', 'n']),
{
    reveal_strlit("region");
    assert("region"@ =~= seq!['r', 'e', 'g', 'i', 'o', 'n']);
}

} // verus!
