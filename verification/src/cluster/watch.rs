//! When a backend looks at its file again.

use vstd::prelude::*;

use crate::text::same_text;

verus! {

/// Whether a name is among those that changed in a directory. A change without a name is one
/// of the directory itself.
pub open spec fn names_file(changed: Seq<Option<String>>, file_name: Seq<char>) -> bool {
    exists|i: int|
        0 <= i < changed.len() && (#[trigger] changed[i] matches Some(name) && name@ == file_name)
}

/// Whether changes in the directory of a file are to be followed by a reload: one of them
/// names the file.
pub fn should_reload(changed: &Vec<Option<String>>, file_name: &str) -> (reload: bool)
    ensures
        reload == names_file(changed@, file_name@),
{
    let mut index: usize = 0;
    while index < changed.len()
        invariant
            index <= changed@.len(),
            forall|i: int|
                0 <= i < index ==> !(#[trigger] changed@[i] matches Some(name) && name@
                    == file_name@),
        decreases changed@.len() - index,
    {
        if let Some(name) = &changed[index] {
            if same_text(name.as_str(), file_name) {
                assert(changed@[index as int] matches Some(name) && name@ == file_name@);
                return true;
            }
        }
        index += 1;
    }
    false
}

} // verus!
