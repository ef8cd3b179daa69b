//! Where a level is stored.

use std::path::PathBuf;
use vstd::prelude::*;

verus! {

/// `std::path::PathBuf`.
#[verifier::external_type_specification]
#[verifier::external_body]
pub struct ExPathBuf(std::path::PathBuf);

/// A component of a path, as `std::path::Component` tells them apart. The text of a
/// component is read with a replacement character for what is not Unicode.
pub enum PathPart {
    /// A Windows prefix, such as a drive or a share. It does not occur on other platforms.
    Prefix(Seq<char>),
    RootDir,
    CurDir,
    ParentDir,
    Normal(Seq<char>),
}

/// The components that a path holds, in the order in which `Path::components` lists them.
pub uninterp spec fn path_parts(path: PathBuf) -> Seq<PathPart>;

/// Whether a path begins with a Windows prefix.
pub open spec fn has_prefix(parts: Seq<PathPart>) -> bool {
    parts.len() > 0 && parts[0] is Prefix
}

/// Whether a name is made of ASCII letters and is not empty: such a name is a path of one
/// component on every platform.
pub open spec fn is_plain_name(name: Seq<char>) -> bool {
    &&& name.len() > 0
    &&& forall|i: int|
        0 <= i < name.len() ==> ('a' <= #[trigger] name[i] <= 'z' || 'A' <= name[i] <= 'Z')
}

/// The path that `Path::join` makes of a path and a name.
pub uninterp spec fn joined(path: PathBuf, name: Seq<char>) -> PathBuf;

/// `std::path::Path::join` with a plain name: the path that is called `joined`. Where neither
/// it nor the path before begins with a Windows prefix, it has one component more, the name.
/// Nothing is said of its components otherwise: a name can complete the prefix of a share.
#[verifier::external_body]
fn join_name(path: &PathBuf, name: &str) -> (result: PathBuf)
    requires
        is_plain_name(name@),
    ensures
        result == joined(*path, name@),
        !has_prefix(path_parts(*path)) && !has_prefix(path_parts(result)) ==> path_parts(result)
            == path_parts(*path).push(PathPart::Normal(name@)),
{
    path.join(name)
}

/// `PathBuf::clone`: the same path.
pub assume_specification[ <std::path::PathBuf as std::clone::Clone>::clone ](
    path: &std::path::PathBuf,
) -> (copy: std::path::PathBuf)
    ensures
        copy == *path,
;

/// The folders of a level.
pub struct LevelFolder {
    pub root_folder: PathBuf,
    pub region_folder: PathBuf,
}

impl Clone for LevelFolder {
    fn clone(&self) -> (copy: LevelFolder)
        ensures
            copy == *self,
    {
        LevelFolder {
            root_folder: self.root_folder.clone(),
            region_folder: self.region_folder.clone(),
        }
    }
}

impl LevelFolder {
    /// The regions are stored in the folder `region` of the root folder.
    pub open spec fn has_regions_in_root(self) -> bool {
        &&& self.region_folder == joined(self.root_folder, "region"@)
        &&& !has_prefix(path_parts(self.root_folder)) && !has_prefix(path_parts(self.region_folder))
            ==> path_parts(self.region_folder) == path_parts(self.root_folder).push(
            PathPart::Normal("region"@),
        )
    }

    /// The folders of the level that is stored in `root_folder`: its regions are stored in
    /// the folder `region` there.
    pub fn in_root_folder(root_folder: PathBuf) -> (folder: LevelFolder)
        ensures
            folder.root_folder == root_folder,
            folder.has_regions_in_root(),
    {
        proof {
            reveal_strlit("region");
        }
        let region_folder = join_name(&root_folder, "region");
        LevelFolder { root_folder, region_folder }
    }
}

} // verus!
