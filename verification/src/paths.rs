//! Path questions asked of `std::path`, and the kind of input path.

use vstd::prelude::*;

verus! {

/// What `Path::file_stem` gives for a path, as text.
pub uninterp spec fn file_stem_of(path: Seq<char>) -> Option<Seq<char>>;

/// Whether `Path`'s equality (component by component) holds between two paths.
pub uninterp spec fn same_path(a: Seq<char>, b: Seq<char>) -> bool;

/// `std::path::Path::file_stem` of the path, read back as a string. The
/// contract claims only that the result is the named value
/// `file_stem_of` of the text; the stem of a path given as UTF-8 text is
/// itself valid UTF-8, so `to_str` always succeeds here.
#[verifier::external_body]
pub(crate) fn file_stem(path: &str) -> (r: Option<String>)
    ensures
        match r {
            Some(s) => file_stem_of(path@) == Some(s@),
            None => file_stem_of(path@) is None,
        },
{
    std::path::Path::new(path).file_stem().and_then(|s| s.to_str()).map(|s| s.to_string())
}

/// `==` on `std::path::Path`. The contract claims that the result is the
/// named relation `same_path`, and that a path is equal to itself.
#[verifier::external_body]
pub(crate) fn paths_equal(a: &str, b: &str) -> (r: bool)
    ensures
        r == same_path(a@, b@),
        a@ == b@ ==> r,
{
    std::path::Path::new(a) == std::path::Path::new(b)
}

/// The kind of the input path, from what the file system says of it: a
/// directory is a folder, otherwise a regular file is a file, and anything
/// else is refused.
pub fn determine_path_type(is_dir: bool, is_file: bool) -> (r: Result<&'static str, &'static str>)
    ensures
        is_dir ==> (r matches Ok(s) && s@ == "folder"@),
        !is_dir && is_file ==> (r matches Ok(s) && s@ == "file"@),
        !is_dir && !is_file ==> (r matches Err(e) && e@ == "Invalid path."@),
{
    if is_dir {
        Ok("folder")
    } else if is_file {
        Ok("file")
    } else {
        Err("Invalid path.")
    }
}

} // verus!
