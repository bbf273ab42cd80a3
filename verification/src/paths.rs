//! File path helpers used around the pipeline's inputs and outputs.
//!
//! Splitting a parent directory from a path is pure string logic and is
//! verified here; asking the operating system whether a file exists or is
//! writable is inherently outside the library's model, so those two calls
//! are trusted and everything built on them states no more than it can.

use vstd::prelude::*;

use vstd::string::StrSliceExecFns;

verus! {

/// The prefix of a path before its final separator; empty when the path
/// has no separator.
pub open spec fn parent_of(s: Seq<char>) -> Seq<char>
    decreases s.len(),
{
    if s.len() == 0 {
        s
    } else if s.last() == '/' {
        s.drop_last()
    } else {
        parent_of(s.drop_last())
    }
}

/// When `idx` is the last separator, the parent is the prefix before it.
proof fn lemma_parent_of_last_slash(s: Seq<char>, idx: int)
    requires
        0 <= idx < s.len(),
        s[idx] == '/',
        forall|j: int| idx < j < s.len() ==> s[j] != '/',
    ensures
        parent_of(s) == s.subrange(0, idx),
    decreases s.len(),
{
    if idx == s.len() - 1 {
        assert(s.drop_last() =~= s.subrange(0, idx));
    } else {
        assert(s.last() != '/');
        assert(forall|j: int| idx < j < s.drop_last().len() ==> s.drop_last()[j] != '/');
        lemma_parent_of_last_slash(s.drop_last(), idx);
        assert(s.drop_last().subrange(0, idx) =~= s.subrange(0, idx));
    }
}

/// A path without separators has an empty parent.
proof fn lemma_parent_of_no_slash(s: Seq<char>)
    requires
        forall|j: int| 0 <= j < s.len() ==> s[j] != '/',
    ensures
        parent_of(s).len() == 0,
    decreases s.len(),
{
    if s.len() > 0 {
        assert(forall|j: int| 0 <= j < s.drop_last().len() ==> s.drop_last()[j] != '/');
        lemma_parent_of_no_slash(s.drop_last());
    }
}

/// Relies on `std::path::Path::exists`: whether the file system currently
/// holds an entry at the path. The answer depends on the machine's state,
/// so nothing further is promised of it.
#[verifier::external_body]
pub fn file_exists(chk_path: &str) -> bool {
    std::path::Path::new(chk_path).exists()
}

/// Relies on `std::path::Path::metadata` and `Permissions::readonly`:
/// whether the path names an entry the process may write. A path whose
/// metadata cannot be read reports as not writable rather than failing.
/// The answer depends on the machine's state, so nothing further is
/// promised of it.
#[verifier::external_body]
pub fn file_writable(chk_path: &str) -> bool {
    match std::path::Path::new(chk_path).metadata() {
        Ok(m) => !m.permissions().readonly(),
        Err(_) => false,
    }
}

/// The parent directory of a path: everything before the last separator.
/// A path ending in a separator parents to everything before that final
/// separator, so the parent of a directory path with a trailing separator
/// is the same directory without it.
pub fn get_parent(chk_path: &str) -> (r: String)
    ensures
        r@ == parent_of(chk_path@),
{
    let n = chk_path.unicode_len();
    let mut last: usize = n;
    let mut i: usize = 0;
    while i < n
        invariant
            i <= n,
            n == chk_path@.len(),
            last == n || (last < i && chk_path@[last as int] == '/'),
            forall|j: int| 0 <= j < i && (last == n || last < j) ==> chk_path@[j] != '/',
        decreases n - i,
    {
        if chk_path.get_char(i) == '/' {
            last = i;
        }
        i = i + 1;
    }
    if last == n {
        proof {
            lemma_parent_of_no_slash(chk_path@);
            assert(""@ =~= parent_of(chk_path@)) by {
                reveal_strlit("");
            }
        }
        String::new()
    } else {
        proof {
            lemma_parent_of_last_slash(chk_path@, last as int);
        }
        let part = chk_path.substring_char(0, last);
        part.to_owned()
    }
}

/// Whether the path's parent directory exists on the file system; the
/// parent is computed as [`get_parent`] does, the probe itself is the
/// operating system's answer.
pub fn parent_exists(chk_path: &str) -> bool {
    let parent = get_parent(chk_path);
    file_exists(parent.as_str())
}

/// Whether the path's parent directory is writable; the parent is computed
/// as [`get_parent`] does, the probe itself is the operating system's
/// answer.
pub fn parent_writable(chk_path: &str) -> bool {
    let parent = get_parent(chk_path);
    file_writable(parent.as_str())
}

/// Whether the path's parent directory both exists and is writable.
pub fn parent_exists_and_writable(chk_path: &str) -> (r: bool) {
    parent_exists(chk_path) && parent_writable(chk_path)
}

} // verus!
