//! Destination file naming, and the error type the collaborators share.
//!
//! A path is split the way std's `Path` splits it: trailing `/` separators
//! are ignored when locating the file name, a name of `.` or `..` has
//! neither stem nor extension, and otherwise the name's last `.` separates
//! stem from extension unless that dot is the name's leading character.

use vstd::prelude::*;
use vstd::string::{StrSliceExecFns, StringExecFns};

verus! {

/// What can go wrong around a filter invocation: a destination path that
/// cannot be derived, a codec failure reported by the caller, or any other
/// failure, each carrying its message.
#[derive(Debug)]
pub enum FilterError {
    DestImgError(String),
    ImageError(String),
    OtherError(String),
}

impl FilterError {
    /// Take the message out of the error.
    pub fn get_error_string(self) -> (s: String)
        ensures
            self is DestImgError ==> s == self->DestImgError_0,
            self is ImageError ==> s == self->ImageError_0,
            self is OtherError ==> s == self->OtherError_0,
    {
        match self {
            FilterError::DestImgError(s) => s,
            FilterError::ImageError(s) => s,
            FilterError::OtherError(s) => s,
        }
    }

    /// Borrow the error's message.
    pub fn get_ref_error_string(&self) -> (s: &str)
        ensures
            *self is DestImgError ==> s@ == self->DestImgError_0@,
            *self is ImageError ==> s@ == self->ImageError_0@,
            *self is OtherError ==> s@ == self->OtherError_0@,
    {
        match self {
            FilterError::DestImgError(s) => s.as_str(),
            FilterError::ImageError(s) => s.as_str(),
            FilterError::OtherError(s) => s.as_str(),
        }
    }
}

/// The last index at which `c` occurs in `s`, or -1 when it does not.
pub open spec fn last_index_of_char(s: Seq<char>, c: char) -> int
    decreases s.len(),
{
    if s.len() == 0 {
        -1
    } else if s.last() == c {
        s.len() - 1
    } else {
        last_index_of_char(s.drop_last(), c)
    }
}

/// The path's length once trailing `/` separators are dropped.
pub open spec fn trimmed_len(s: Seq<char>) -> int
    decreases s.len(),
{
    if s.len() > 0 && s.last() == '/' {
        trimmed_len(s.drop_last())
    } else {
        s.len() as int
    }
}

/// Where the file name begins: just after the last `/` of the path with
/// its trailing separators dropped.
pub open spec fn name_start(s: Seq<char>) -> int {
    last_index_of_char(s.subrange(0, trimmed_len(s)), '/') + 1
}

/// Whether the path carries a file name: with trailing separators
/// dropped, something stands after the last `/`, and it is neither `.`
/// nor `..`.
pub open spec fn has_file_name(s: Seq<char>) -> bool {
    let ns = name_start(s);
    let m = trimmed_len(s);
    &&& ns < m
    &&& !(m - ns == 1 && s[ns] == '.')
    &&& !(m - ns == 2 && s[ns] == '.' && s[ns + 1] == '.')
}

/// The index of the dot that separates stem from extension, or -1 when
/// the name has no extension: the last `.` before the trailed end counts
/// only if it lies strictly after the name's first character.
pub open spec fn ext_dot(s: Seq<char>) -> int {
    if last_index_of_char(s.subrange(0, trimmed_len(s)), '.') > name_start(s) {
        last_index_of_char(s.subrange(0, trimmed_len(s)), '.')
    } else {
        -1
    }
}

/// The last occurrence index is inside the sequence.
proof fn lemma_last_index_range(s: Seq<char>, c: char)
    ensures
        -1 <= last_index_of_char(s, c) < s.len(),
    decreases s.len(),
{
    if s.len() > 0 && s.last() != c {
        lemma_last_index_range(s.drop_last(), c);
    }
}

/// If `c` stands at `i` and nowhere later, then `i` is the last occurrence.
proof fn lemma_last_index_found(s: Seq<char>, c: char, i: int)
    requires
        0 <= i < s.len(),
        s[i] == c,
        forall|j: int| i < j < s.len() ==> s[j] != c,
    ensures
        last_index_of_char(s, c) == i,
    decreases s.len(),
{
    if i == s.len() - 1 {
    } else {
        assert(s.last() != c);
        lemma_last_index_found(s.drop_last(), c, i);
    }
}

/// If `c` occurs nowhere, the last occurrence is -1.
proof fn lemma_last_index_none(s: Seq<char>, c: char)
    requires
        forall|j: int| 0 <= j < s.len() ==> s[j] != c,
    ensures
        last_index_of_char(s, c) == -1,
    decreases s.len(),
{
    if s.len() > 0 {
        lemma_last_index_none(s.drop_last(), c);
    }
}

/// The position where every later character is a `/` and no `/` stands
/// just before it is exactly where trimming stops.
proof fn lemma_trimmed_len_at(s: Seq<char>, m: int)
    requires
        0 <= m <= s.len(),
        forall|j: int| m <= j < s.len() ==> s[j] == '/',
        m > 0 ==> s[m - 1] != '/',
    ensures
        trimmed_len(s) == m,
    decreases s.len(),
{
    if s.len() > m {
        assert(s.last() == '/');
        lemma_trimmed_len_at(s.drop_last(), m);
    }
}

/// The last occurrence of `c` in `s`, scanning from the end.
fn rfind_char(s: &str, c: char) -> (r: Option<usize>)
    ensures
        r is Some ==> r->Some_0 == last_index_of_char(s@, c),
        r is None ==> last_index_of_char(s@, c) == -1,
{
    let n = s.unicode_len();
    let mut i = n;
    while i > 0
        invariant
            i <= n,
            n == s@.len(),
            forall|j: int| i <= j < n ==> s@[j] != c,
        decreases i,
    {
        let ch = s.get_char(i - 1);
        if ch == c {
            proof {
                lemma_last_index_found(s@, c, i as int - 1);
            }
            return Some(i - 1);
        }
        i = i - 1;
    }
    proof {
        lemma_last_index_none(s@, c);
    }
    None
}

/// Split a path into the file name's stem and extension, following std's
/// `Path` rule: trailing separators are ignored, and a name of `.` or
/// `..` has neither. Fails with a `DestImgError` when the path has no
/// file name or the name has no extension.
pub fn orig_filename_extension(path: &str) -> (r: Result<(&str, &str), FilterError>)
    ensures
        r is Ok <==> (has_file_name(path@) && ext_dot(path@) >= 0),
        r is Ok ==> r->Ok_0.0@ == path@.subrange(name_start(path@), ext_dot(path@)),
        r is Ok ==> r->Ok_0.1@ == path@.subrange(ext_dot(path@) + 1, trimmed_len(path@)),
        r is Err ==> r->Err_0 is DestImgError,
{
    let n = path.unicode_len();
    // Drop trailing separators, as std's path parsing does.
    let mut m: usize = n;
    while m > 0 && path.get_char(m - 1) == '/'
        invariant
            m <= n,
            n == path@.len(),
            forall|j: int| m <= j < n ==> path@[j] == '/',
        decreases m,
    {
        m = m - 1;
    }
    proof {
        lemma_trimmed_len_at(path@, m as int);
    }
    let trimmed = path.substring_char(0, m);
    proof {
        assert(trimmed@ =~= path@.subrange(0, trimmed_len(path@)));
        lemma_last_index_range(trimmed@, '/');
        lemma_last_index_range(trimmed@, '.');
    }
    let start: usize = match rfind_char(trimmed, '/') {
        Some(i) => i + 1,
        None => 0,
    };
    if start >= m {
        return Err(
            FilterError::DestImgError(String::from_str("the path does not have a file name")),
        );
    }
    if m - start == 1 && trimmed.get_char(start) == '.' {
        return Err(
            FilterError::DestImgError(String::from_str("the path does not have a file name")),
        );
    }
    if m - start == 2 && trimmed.get_char(start) == '.' && trimmed.get_char(start + 1) == '.' {
        return Err(
            FilterError::DestImgError(String::from_str("the path does not have a file name")),
        );
    }
    match rfind_char(trimmed, '.') {
        Some(dot) if dot > start => {
            proof {
                assert(trimmed@.subrange(start as int, dot as int) =~= path@.subrange(
                    start as int,
                    dot as int,
                ));
                assert(trimmed@.subrange(dot as int + 1, m as int) =~= path@.subrange(
                    dot as int + 1,
                    m as int,
                ));
            }
            Ok((trimmed.substring_char(start, dot), trimmed.substring_char(dot + 1, m)))
        },
        _ => Err(
            FilterError::DestImgError(String::from_str("the file name does not have an extension")),
        ),
    }
}

/// Derive the destination path for a filtered image: the stem of the
/// source file, then `file_name_add`, then the original extension, under
/// the `images/` directory.
pub fn get_new_image_file(path: &str, file_name_add: &str) -> (r: Result<String, FilterError>)
    ensures
        r is Ok <==> (has_file_name(path@) && ext_dot(path@) >= 0),
        r is Ok ==> r->Ok_0@ == "images/"@ + path@.subrange(name_start(path@), ext_dot(path@))
            + file_name_add@ + path@.subrange(ext_dot(path@) + 1, trimmed_len(path@)),
        r is Err ==> r->Err_0 is DestImgError,
{
    let (stem, ext) = match orig_filename_extension(path) {
        Ok(parts) => parts,
        Err(e) => {
            return Err(e);
        },
    };
    let out = String::from_str("images/").concat(stem).concat(file_name_add).concat(ext);
    Ok(out)
}

} // verus!
