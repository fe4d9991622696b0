//! Collision-safe export naming: given a sanitised file name and the set of
//! paths already present in the destination directory, pick the first
//! available path, never overwriting an existing file (except through the
//! last-resort fallback name, which is allowed to collide).
//!
//! Existence is passed in as the list of paths currently taken in the
//! directory; probing the disk is the hosting layer's job.

use vstd::prelude::*;
use crate::dec::{dec_of, push_dec};
use crate::errors::StoreError;
use crate::paths::{
    ext_of,
    file_name_of,
    join_path,
    join_spec,
    last_dot,
    sanitize_file_name,
    sanitize_spec,
};
use crate::text::{chars_string, str_chars, subvec};

verus! {

/// The stem of a file name, as the export numbering uses it: the portion of
/// the final path component before its last `.` (the whole component when it
/// has no usable extension), with a fixed default when the path names no
/// file.
pub open spec fn stem_of(name: Seq<char>) -> Seq<char> {
    match file_name_of(name) {
        None => "document-signed"@,
        Some(comp) => match last_dot(comp) {
            Some(i) => if i > 0 {
                comp.take(i)
            } else {
                comp
            },
            None => comp,
        },
    }
}

/// The extension used for numbered export names: the final component's
/// extension, with `pdf` as the default when it has none.
pub open spec fn ext_or_pdf(name: Seq<char>) -> Seq<char> {
    match file_name_of(name) {
        None => "pdf"@,
        Some(comp) => match ext_of(comp) {
            Some(e) => e,
            None => "pdf"@,
        },
    }
}

/// The `i`-th numbered candidate name: `stem (i).ext`.
pub open spec fn numbered_name(stem: Seq<char>, ext: Seq<char>, i: nat) -> Seq<char> {
    stem + " ("@ + dec_of(i) + ")."@ + ext
}

/// The last-resort name used when all numbered candidates are taken.
pub open spec fn fallback_name(stem: Seq<char>, ext: Seq<char>) -> Seq<char> {
    stem + "-export."@ + ext
}

/// The first available numbered candidate at index `i` or beyond (up to,
/// exclusively, 1000), or the fallback once the probe bound is exhausted.
pub open spec fn search_from(
    dir: Seq<char>,
    stem: Seq<char>,
    ext: Seq<char>,
    taken: Seq<Seq<char>>,
    i: int,
) -> Seq<char>
    decreases 1000 - i,
{
    if i < 1 || i >= 1000 {
        join_spec(dir, fallback_name(stem, ext))
    } else if !taken.contains(join_spec(dir, numbered_name(stem, ext, i as nat))) {
        join_spec(dir, numbered_name(stem, ext, i as nat))
    } else {
        search_from(dir, stem, ext, taken, i + 1)
    }
}

/// What `next_available_path` returns: the plain joined path when it is not
/// taken, else the first free numbered candidate, else the fallback.
pub open spec fn next_available_spec(
    dir: Seq<char>,
    file_name: Seq<char>,
    taken: Seq<Seq<char>>,
) -> Seq<char> {
    if !taken.contains(join_spec(dir, file_name)) {
        join_spec(dir, file_name)
    } else {
        search_from(dir, stem_of(file_name), ext_or_pdf(file_name), taken, 1)
    }
}

fn contains_string(taken: &Vec<String>, x: &String) -> (r: bool)
    ensures
        r == taken.deep_view().contains(x@),
{
    let mut k: usize = 0;
    while k < taken.len()
        invariant
            k <= taken@.len(),
            forall|m: int| 0 <= m < k ==> taken.deep_view()[m] != x@,
        decreases taken@.len() - k,
    {
        if taken[k].eq(x) {
            proof {
                assert(taken.deep_view()[k as int] == x@);
            }
            return true;
        }
        k = k + 1;
    }
    proof {
        assert(!taken.deep_view().contains(x@));
    }
    false
}

/// Splits a file name into the stem and extension used for numbered export
/// candidates.
fn stem_and_ext(file_name: &str) -> (r: (String, String))
    ensures
        r.0@ == stem_of(file_name@),
        r.1@ == ext_or_pdf(file_name@),
{
    let cs = str_chars(file_name);
    let n = cs.len();
    let cut = crate::paths::component_start(&cs);
    let comp = subvec(&cs, cut, n);
    proof {
        assert(comp@ =~= cs@.skip(cut as int));
        crate::paths::lemma_no_file_chars(comp@);
    }
    let len = n - cut;
    let degenerate = len == 0 || (len == 1 && comp[0] == '.') || (len == 2 && comp[0] == '.'
        && comp[1] == '.');
    if degenerate {
        return (String::from_str("document-signed"), String::from_str("pdf"));
    }
    let mut d: usize = len;
    while d > 0 && comp[d - 1] != '.'
        invariant
            d <= len == comp@.len(),
            forall|j: int| d <= j < len ==> comp@[j] != '.',
        decreases d,
    {
        d = d - 1;
    }
    if d == 0 {
        proof {
            crate::paths::lemma_last_dot_at(comp@, comp@.len() as int);
        }
        (chars_string(&comp), String::from_str("pdf"))
    } else {
        proof {
            crate::paths::lemma_last_dot_at(comp@, d - 1);
        }
        if d - 1 == 0 {
            (chars_string(&comp), String::from_str("pdf"))
        } else {
            let stem = subvec(&comp, 0, d - 1);
            let ext = subvec(&comp, d, len);
            proof {
                assert(stem@ =~= comp@.take(d - 1));
                assert(ext@ =~= comp@.skip(d as int));
            }
            (chars_string(&stem), chars_string(&ext))
        }
    }
}

/// Picks the first path under `dir` that is not in `taken`: the given name
/// itself, then `stem (1).ext` through `stem (999).ext`, and as a last resort
/// `stem-export.ext` (which alone may collide).
#[verifier::loop_isolation(false)]
pub fn next_available_path(dir: &str, file_name: &str, taken: &Vec<String>) -> (r: String)
    ensures
        r@ == next_available_spec(dir@, file_name@, taken.deep_view()),
        !taken.deep_view().contains(r@) || r@ == join_spec(
            dir@,
            fallback_name(stem_of(file_name@), ext_or_pdf(file_name@)),
        ),
{
    let initial = join_path(dir, file_name);
    if !contains_string(taken, &initial) {
        return initial;
    }
    let (stem, ext) = stem_and_ext(file_name);
    let ghost dirv = dir@;
    let ghost stemv = stem@;
    let ghost extv = ext@;
    let ghost takenv = taken.deep_view();
    let mut i: u32 = 1;
    while i < 1000
        invariant
            1 <= i <= 1000,
            stemv == stem@,
            extv == ext@,
            takenv == taken.deep_view(),
            search_from(dirv, stemv, extv, takenv, 1) == search_from(dirv, stemv, extv, takenv, i as int),
        decreases 1000 - i,
    {
        let mut name = stem.clone();
        name.append(" (");
        push_dec(&mut name, i);
        name.append(").");
        name.append(ext.as_str());
        proof {
            assert(name@ =~= numbered_name(stemv, extv, i as nat));
        }
        let candidate = join_path(dir, name.as_str());
        if !contains_string(taken, &candidate) {
            return candidate;
        }
        i = i + 1;
    }
    let mut name = stem.clone();
    name.append("-export.");
    name.append(ext.as_str());
    proof {
        assert(name@ =~= fallback_name(stemv, extv));
    }
    join_path(dir, name.as_str())
}

/// Composes sanitation, the downloads directory and collision-safe naming
/// into the final export path for a signed document; fails only when the
/// platform offers no downloads directory.
pub fn export_path(downloads_dir: Option<&String>, desired_name: &str, taken: &Vec<String>) -> (r:
    Result<String, StoreError>)
    ensures
        downloads_dir is None <==> r == Err::<String, StoreError>(StoreError::DirectoryUnavailable),
        downloads_dir matches Some(d) ==> r matches Ok(p) && p@ == next_available_spec(
            d@,
            sanitize_spec(desired_name@),
            taken.deep_view(),
        ),
{
    match downloads_dir {
        None => Err(StoreError::DirectoryUnavailable),
        Some(d) => {
            let name = sanitize_file_name(desired_name);
            Ok(next_available_path(d.as_str(), name.as_str(), taken))
        },
    }
}

} // verus!
