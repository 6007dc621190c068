//! The handle of a local configuration directory.

use vstd::prelude::*;

verus! {

/// The root folder configuration files are read from.  The walking and
/// reading of the directory is the host's work; this type carries the root.
#[derive(Debug)]
pub struct BasicFsFileProvider {
    pub folder: String,
}

impl BasicFsFileProvider {
    /// A provider handle rooted at `folder`.
    pub fn new(folder: String) -> (r: BasicFsFileProvider)
        ensures
            r.folder@ == folder@,
    {
        BasicFsFileProvider { folder }
    }

    /// The root folder.
    pub fn root(&self) -> (r: &String)
        ensures
            r@ == self.folder@,
    {
        &self.folder
    }
}

} // verus!
