//! The interface shared by the indexes of the analysis database.
use vstd::hash_map::StringHashMap;
use vstd::prelude::*;

use crate::module_node::FileId;

verus! {

/// An index that records facts per file.
pub trait LuaIndex {
    /// The consistency conditions of the index.
    spec fn index_wf(&self) -> bool;

    /// Forgets what the index recorded for a file.
    fn remove(&mut self, file_id: FileId)
        requires
            old(self).index_wf(),
        ensures
            final(self).index_wf(),
    ;

    /// Adds counts that describe the index to a table of snapshot details.
    fn fill_snapshot_info(&self, info: &mut StringHashMap<String>);
}

} // verus!
