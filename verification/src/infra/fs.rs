//! What copying a directory tree decides: which entries are skipped, and where each
//! copied entry lands.
use vstd::prelude::*;

use crate::domain::error::{GrfError, Result};
use crate::infra::path::{join, utf8_join, strip_prefix, utf8_strip_prefix};
use crate::text::{chars_eq, chars_of, concat, string_from_chars};

verus! {

/// Whether an entry with this file name is left out of a copy.
pub fn is_excluded(file_name: &str, exclude_names: &[&str]) -> (b: bool)
    ensures
        b == exists|i: int| 0 <= i < exclude_names@.len() && (#[trigger] exclude_names@[i])@ == file_name@,
{
    let name = chars_of(file_name);
    let mut i: usize = 0;
    while i < exclude_names.len()
        invariant
            i <= exclude_names@.len(),
            name@ == file_name@,
            forall|j: int| 0 <= j < i ==> (#[trigger] exclude_names@[j])@ != file_name@,
        decreases exclude_names@.len() - i,
    {
        if chars_eq(&chars_of(exclude_names[i]), &name) {
            return true;
        }
        i += 1;
    }
    false
}

/// Where an entry met while walking `src` is copied: its path below `src` joined
/// onto `dest`; `InvalidArgument` when it is not below `src`.
pub fn copy_destination(src: &str, dest: &str, entry_path: &str) -> (r: Result<String>)
    ensures
        match utf8_strip_prefix(entry_path@, src@) {
            Some(rel) => r matches Ok(p) && p@ == utf8_join(dest@, rel),
            None => r matches Err(GrfError::InvalidArgument { message }) && message@
                == "无法计算相对路径: "@ + entry_path@,
        },
{
    match strip_prefix(entry_path, src) {
        Some(rel) => Ok(join(dest, rel.as_str())),
        None => {
            let message = concat(&chars_of("无法计算相对路径: "), &chars_of(entry_path));
            Err(GrfError::InvalidArgument { message: string_from_chars(&message) })
        },
    }
}

} // verus!
