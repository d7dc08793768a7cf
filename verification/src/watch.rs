//! The filter of the configuration watcher: only events that touch the
//! configuration file itself trigger a reload.

use vstd::prelude::*;
use crate::path::{file_name, file_name_of};
use crate::text::same_text;

verus! {

/// Some path of a batch of filesystem events names the file `config_name`
/// (a rename onto it reports the destination, so an atomic replace-on-save
/// counts).
pub open spec fn touches(paths: Seq<Seq<char>>, config_name: Seq<char>) -> bool {
    exists|i: int| 0 <= i < paths.len() && file_name_of(#[trigger] paths[i]) == Some(config_name)
}

/// Whether a batch of event paths touches the configuration file; writes to
/// sibling files (such as the store) do not.
pub fn config_touched(paths: &[String], config_name: &str) -> (r: bool)
    ensures
        r == touches(crate::config::texts(paths@), config_name@),
{
    let mut i: usize = 0;
    while i < paths.len()
        invariant
            i <= paths@.len(),
            forall|j: int| 0 <= j < i ==> file_name_of(#[trigger] paths@[j]@) != Some(config_name@),
        decreases paths@.len() - i,
    {
        match file_name(paths[i].as_str()) {
            Some(n) => {
                if same_text(n, config_name) {
                    assert(crate::config::texts(paths@)[i as int] == paths@[i as int]@);
                    return true;
                }
            },
            None => {},
        }
        i += 1;
    }
    assert forall|j: int| 0 <= j < paths@.len() implies file_name_of(
        #[trigger] crate::config::texts(paths@)[j],
    ) != Some(config_name@) by {
        assert(crate::config::texts(paths@)[j] == paths@[j]@);
    }
    false
}

} // verus!
