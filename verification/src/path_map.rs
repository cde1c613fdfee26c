//! Remapping of absolute file paths from a host directory tree to a target
//! directory.
//!
//! A path is its text: components separated by `/`. A path `f` is a
//! descendant of a directory `d` when the component sequence of `f` begins
//! with all components of `d`, which in text reads: `f` equals `d`, or `f`
//! extends `d` at a component boundary — `d` already ends with a separator,
//! or a separator follows the `d` prefix in `f`.

use vstd::prelude::*;
use crate::error::{ContainerError, ErrorKind};

verus! {

/// `d` ends with a path separator.
pub open spec fn sep_terminated(d: Seq<char>) -> bool {
    d.len() > 0 && d[d.len() - 1] == '/'
}

/// `f` strictly extends `d` at a component boundary.
pub open spec fn strictly_under(f: Seq<char>, d: Seq<char>) -> bool {
    &&& f.len() > d.len()
    &&& f.subrange(0, d.len() as int) == d
    &&& (sep_terminated(d) || f[d.len() as int] == '/')
}

/// `f` is a descendant of `d`: equal to it, or strictly under it.
pub open spec fn is_descendant(f: Seq<char>, d: Seq<char>) -> bool {
    f == d || strictly_under(f, d)
}

/// The path of `f` relative to `d`, for `f` strictly under `d`: what
/// follows the `d` prefix and the separator at the boundary.
pub open spec fn rel_suffix(f: Seq<char>, d: Seq<char>) -> Seq<char> {
    if sep_terminated(d) {
        f.skip(d.len() as int)
    } else {
        f.skip(d.len() + 1 as int)
    }
}

/// A directory `t` joined with a relative path: `t` itself for the empty
/// relative path, else `t`, a separator, and the relative path.
pub open spec fn join_path(t: Seq<char>, rel: Seq<char>) -> Seq<char> {
    if rel.len() == 0 {
        t
    } else {
        t + seq!['/'] + rel
    }
}

/// Where a descendant `f` of `d` lands when `d` is replaced by `t`: `t`
/// joined with the path of `f` relative to `d`.
pub open spec fn remap_spec(d: Seq<char>, f: Seq<char>, t: Seq<char>) -> Seq<char> {
    if f == d {
        t
    } else {
        join_path(t, rel_suffix(f, d))
    }
}

/// Compares two equally long character ranges of `f` and `d`.
fn ranges_equal(f: &str, d: &str, len: usize) -> (r: bool)
    requires
        len <= f@.len(),
        len <= d@.len(),
    ensures
        r == (f@.subrange(0, len as int) == d@.subrange(0, len as int)),
{
    let mut i: usize = 0;
    while i < len
        invariant
            i <= len,
            len <= f@.len(),
            len <= d@.len(),
            forall|k: int| 0 <= k < i ==> f@[k] == d@[k],
        decreases len - i,
    {
        if f.get_char(i) != d.get_char(i) {
            assert(f@.subrange(0, len as int)[i as int] != d@.subrange(0, len as int)[i as int]);
            return false;
        }
        i = i + 1;
    }
    proof {
        assert(f@.subrange(0, len as int) =~= d@.subrange(0, len as int));
    }
    true
}

/// Rewrites `filepath`, a descendant of `directory`, to the equivalent path
/// under `target_dir`. Fails with the path-mapping error exactly when
/// `filepath` is not a descendant of `directory`, and then produces no
/// output.
pub fn get_container_pathbuf(
    directory: &String,
    filepath: &String,
    target_dir: &String,
) -> (r: Result<String, ContainerError>)
    ensures
        match r {
            Ok(p) => is_descendant(filepath@, directory@)
                && p@ == remap_spec(directory@, filepath@, target_dir@),
            Err(e) => !is_descendant(filepath@, directory@)
                && e.kind == ErrorKind::PathMapping,
        },
{
    let f_len = filepath.as_str().unicode_len();
    let d_len = directory.as_str().unicode_len();
    if f_len == d_len {
        if ranges_equal(filepath.as_str(), directory.as_str(), d_len) {
            proof {
                assert(filepath@ =~= filepath@.subrange(0, d_len as int));
                assert(directory@ =~= directory@.subrange(0, d_len as int));
            }
            return Ok(target_dir.clone());
        }
        proof {
            assert(filepath@.subrange(0, d_len as int) =~= filepath@);
            assert(directory@.subrange(0, d_len as int) =~= directory@);
        }
        return Err(ContainerError::new(ErrorKind::PathMapping, "failed to create container path"));
    }
    if f_len > d_len && ranges_equal(filepath.as_str(), directory.as_str(), d_len) {
        proof {
            assert(directory@.subrange(0, d_len as int) =~= directory@);
        }
        let sep_term = d_len > 0 && directory.as_str().get_char(d_len - 1) == '/';
        if sep_term {
            let suffix = filepath.as_str().substring_char(d_len, f_len);
            let mut joined = target_dir.clone();
            joined.append("/");
            joined.append(suffix);
            proof {
                reveal_strlit("/");
                assert(strictly_under(filepath@, directory@));
                assert(joined@ =~= target_dir@ + seq!['/'] + rel_suffix(filepath@, directory@));
            }
            return Ok(joined);
        }
        if filepath.as_str().get_char(d_len) == '/' {
            proof {
                assert(strictly_under(filepath@, directory@));
            }
            let suffix = filepath.as_str().substring_char(d_len, f_len);
            if suffix.unicode_len() == 1 {
                // The suffix is the bare separator: `filepath` is `directory`
                // followed by `/` alone, whose relative path is empty.
                proof {
                    assert(rel_suffix(filepath@, directory@).len() == 0);
                }
                return Ok(target_dir.clone());
            }
            let joined = target_dir.clone().concat(suffix);
            proof {
                assert(joined@ =~= target_dir@ + seq!['/'] + rel_suffix(filepath@, directory@));
            }
            return Ok(joined);
        }
    }
    proof {
        if is_descendant(filepath@, directory@) {
            if filepath@ == directory@ {
                assert(f_len == d_len);
            } else {
                assert(filepath@.subrange(0, d_len as int) == directory@);
                assert(directory@.subrange(0, d_len as int) =~= directory@);
            }
        }
    }
    Err(ContainerError::new(ErrorKind::PathMapping, "failed to create container path"))
}

} // verus!
