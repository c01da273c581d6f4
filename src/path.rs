//! Joining a relative path onto a base directory.

use crate::event::push_char;
use vstd::prelude::*;
use vstd::string::*;

verus! {

/// A path pushed onto a base directory, with `/` as the separator: an
/// absolute path replaces the base; otherwise a separator is put between the
/// two unless the base is empty or already ends with one.
pub open spec fn joined_path(base: Seq<char>, relative: Seq<char>) -> Seq<char> {
    if relative.len() > 0 && relative[0] == '/' {
        relative
    } else if base.len() == 0 || base.last() == '/' {
        base + relative
    } else {
        base.push('/') + relative
    }
}

/// The path of `relative_path` under the directory `base_dir`.
pub fn construct_file_path(base_dir: &str, relative_path: &str) -> (r: String)
    ensures
        r@ == joined_path(base_dir@, relative_path@),
{
    let rel_len = relative_path.unicode_len();
    if rel_len > 0 && relative_path.get_char(0) == '/' {
        return String::from_str(relative_path);
    }
    let base_len = base_dir.unicode_len();
    let mut path = String::from_str(base_dir);
    if base_len > 0 && base_dir.get_char(base_len - 1) != '/' {
        push_char(&mut path, '/');
    }
    path.append(relative_path);
    path
}

} // verus!
