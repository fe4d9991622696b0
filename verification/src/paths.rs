//! Path text manipulation: extracting the final component of a path,
//! recognising the `.pdf` extension, sanitising untrusted file names, and
//! joining a directory with a file name.
//!
//! Both `/` and `\` are treated as directory separators, so a name sanitised
//! on one platform is also safe on the other.

use vstd::prelude::*;
use crate::errors::StoreError;
use crate::text::{chars_string, str_chars, subvec};

verus! {

pub open spec fn is_sep(c: char) -> bool {
    c == '/' || c == '\\'
}

/// The suffix of `s` after its last directory separator (all of `s` if it
/// contains none).
pub open spec fn last_component(s: Seq<char>) -> Seq<char>
    decreases s.len(),
{
    if s.len() == 0 {
        s
    } else if is_sep(s.last()) {
        Seq::empty()
    } else {
        last_component(s.drop_last()).push(s.last())
    }
}

/// The file name denoted by a path: its last component, unless that component
/// is empty, `.` or `..`, which name no file.
pub open spec fn file_name_of(s: Seq<char>) -> Option<Seq<char>> {
    let c = last_component(s);
    if no_file(c) {
        None
    } else {
        Some(c)
    }
}

/// The position of the last `.` in `s`, if any.
pub open spec fn last_dot(s: Seq<char>) -> Option<int>
    decreases s.len(),
{
    if s.len() == 0 {
        None
    } else if s.last() == '.' {
        Some(s.len() - 1)
    } else {
        last_dot(s.drop_last())
    }
}

/// The extension of a file name: what follows its last `.`, provided that dot
/// is not the leading character (so dot-files such as `.profile` have none).
pub open spec fn ext_of(name: Seq<char>) -> Option<Seq<char>> {
    match last_dot(name) {
        Some(i) => if i > 0 {
            Some(name.skip(i + 1))
        } else {
            None
        },
        None => None,
    }
}

/// Case-insensitive match against the three letters `pdf`.
pub open spec fn is_pdf_ext(e: Seq<char>) -> bool {
    &&& e.len() == 3
    &&& (e[0] == 'p' || e[0] == 'P')
    &&& (e[1] == 'd' || e[1] == 'D')
    &&& (e[2] == 'f' || e[2] == 'F')
}

/// Whether a path's final component carries a `.pdf` extension
/// (case-insensitively).
pub open spec fn is_pdf_spec(path: Seq<char>) -> bool {
    match ext_of(last_component(path)) {
        Some(e) => is_pdf_ext(e),
        None => false,
    }
}

/// Whether `s` ends in `.pdf`, case-insensitive on the letters.
pub open spec fn ends_with_pdf(s: Seq<char>) -> bool {
    let n = s.len() as int;
    &&& n >= 4
    &&& s[n - 4] == '.'
    &&& (s[n - 3] == 'p' || s[n - 3] == 'P')
    &&& (s[n - 2] == 'd' || s[n - 2] == 'D')
    &&& (s[n - 1] == 'f' || s[n - 1] == 'F')
}

/// What `sanitize_file_name` returns: the input's file name (or the fixed
/// default if the input names no file), with a `.pdf` suffix appended unless
/// one is already present.
pub open spec fn sanitize_spec(name: Seq<char>) -> Seq<char> {
    let base = match file_name_of(name) {
        Some(b) => b,
        None => "document-signed.pdf"@,
    };
    if ends_with_pdf(base) {
        base
    } else {
        base + ".pdf"@
    }
}

/// A directory joined with a (separator-free) file name: a `/` is inserted
/// unless the directory is empty or already ends in a separator.
pub open spec fn join_spec(dir: Seq<char>, name: Seq<char>) -> Seq<char> {
    if dir.len() == 0 {
        name
    } else if is_sep(dir.last()) {
        dir + name
    } else {
        dir + seq!['/'] + name
    }
}

/// If no separator occurs at or after `cut`, and `cut` is either the start of
/// `s` or just past a separator, then the last component of `s` is exactly
/// the suffix starting at `cut`.
proof fn lemma_last_component_at(s: Seq<char>, cut: int)
    requires
        0 <= cut <= s.len(),
        forall|j: int| cut <= j < s.len() ==> !is_sep(s[j]),
        cut == 0 || is_sep(s[cut - 1]),
    ensures
        last_component(s) == s.skip(cut),
    decreases s.len(),
{
    if s.len() == cut {
        if cut == 0 {
            assert(last_component(s) =~= s.skip(cut));
        } else {
            assert(is_sep(s.last()));
            assert(last_component(s) =~= s.skip(cut));
        }
    } else {
        assert(!is_sep(s.last()));
        lemma_last_component_at(s.drop_last(), cut);
        assert(last_component(s.drop_last()).push(s.last()) =~= s.skip(cut));
    }
}

/// The symmetric fact for dots: if no dot occurs strictly after `d` and
/// `s[d]` is a dot, the last dot of `s` is at `d`; if `s` holds no dot at
/// all, there is none.
pub(crate) proof fn lemma_last_dot_at(s: Seq<char>, d: int)
    requires
        0 <= d <= s.len(),
        forall|j: int| d < j < s.len() ==> s[j] != '.',
        d < s.len() ==> s[d] == '.',
        d == s.len() ==> forall|j: int| 0 <= j < s.len() ==> s[j] != '.',
    ensures
        d < s.len() ==> last_dot(s) == Some(d),
        d == s.len() ==> last_dot(s) is None,
    decreases s.len(),
{
    if s.len() == 0 {
    } else if d == s.len() {
        lemma_last_dot_at(s.drop_last(), d - 1);
    } else if d == s.len() - 1 {
    } else {
        lemma_last_dot_at(s.drop_last(), d);
    }
}

/// Whether a path component names no file: empty, `.` or `..`.
pub open spec fn no_file(c: Seq<char>) -> bool {
    c.len() == 0 || c =~= seq!['.'] || c =~= seq!['.', '.']
}

pub(crate) proof fn lemma_no_file_chars(c: Seq<char>)
    ensures
        no_file(c) <==> (c.len() == 0 || (c.len() == 1 && c[0] == '.') || (c.len() == 2 && c[0]
            == '.' && c[1] == '.')),
{
    assert((c.len() == 1 && c[0] == '.') ==> c =~= seq!['.']);
    assert((c.len() == 2 && c[0] == '.' && c[1] == '.') ==> c =~= seq!['.', '.']);
}

fn is_sep_char(c: char) -> (r: bool)
    ensures
        r == is_sep(c),
{
    c == '/' || c == '\\'
}

/// The index just past the last separator of `cs` (0 if it has none).
pub(crate) fn component_start(cs: &Vec<char>) -> (cut: usize)
    ensures
        cut <= cs@.len(),
        last_component(cs@) == cs@.skip(cut as int),
{
    let n = cs.len();
    let mut cut: usize = n;
    while cut > 0 && !is_sep_char(cs[cut - 1])
        invariant
            cut <= n == cs@.len(),
            forall|j: int| cut <= j < n ==> !is_sep(cs@[j]),
        decreases cut,
    {
        cut = cut - 1;
    }
    proof {
        lemma_last_component_at(cs@, cut as int);
    }
    cut
}

/// Strips directory components from an untrusted name and enforces a `.pdf`
/// suffix; falls back to a fixed default when the input names no file.
///
/// The result always ends in `.pdf` (case-insensitively) and never contains
/// a directory separator introduced by the caller's input path.
pub fn sanitize_file_name(name: &str) -> (r: String)
    ensures
        r@ == sanitize_spec(name@),
        ends_with_pdf(r@),
{
    let cs = str_chars(name);
    let n = cs.len();
    let cut = component_start(&cs);
    let comp = subvec(&cs, cut, n);
    proof {
        assert(comp@ =~= cs@.skip(cut as int));
        lemma_no_file_chars(comp@);
    }
    let len = n - cut;
    let degenerate = len == 0 || (len == 1 && comp[0] == '.') || (len == 2 && comp[0] == '.'
        && comp[1] == '.');
    if degenerate {
        proof {
            reveal_strlit("document-signed.pdf");
        }
        let r = String::from_str("document-signed.pdf");
        proof {
            assert(ends_with_pdf(r@));
        }
        r
    } else {
        let has_suffix = len >= 4 && comp[len - 4] == '.' && (comp[len - 3] == 'p' || comp[len
            - 3] == 'P') && (comp[len - 2] == 'd' || comp[len - 2] == 'D') && (comp[len - 1]
            == 'f' || comp[len - 1] == 'F');
        let mut r = chars_string(&comp);
        if !has_suffix {
            r.append(".pdf");
            proof {
                reveal_strlit(".pdf");
                assert(ends_with_pdf(r@));
            }
        }
        r
    }
}

/// Whether the path (viewed as text) names a PDF file: its final component
/// must carry a `.pdf` extension, compared case-insensitively.
pub fn is_pdf_path(path: &str) -> (r: bool)
    ensures
        r == is_pdf_spec(path@),
{
    let cs = str_chars(path);
    let n = cs.len();
    let cut = component_start(&cs);
    let mut d: usize = n;
    while d > cut && cs[d - 1] != '.'
        invariant
            cut <= d <= n == cs@.len(),
            forall|j: int| d <= j < n ==> cs@[j] != '.',
        decreases d,
    {
        d = d - 1;
    }
    let ghost comp = last_component(cs@);
    if d == cut {
        proof {
            lemma_last_dot_at(comp, comp.len() as int);
        }
        false
    } else {
        proof {
            lemma_last_dot_at(comp, d - 1 - cut);
        }
        if d - 1 == cut {
            false
        } else {
            proof {
                assert(comp.skip(d - cut) =~= cs@.skip(d as int));
            }
            n - d == 3 && (cs[d] == 'p' || cs[d] == 'P') && (cs[d + 1] == 'd' || cs[d + 1]
                == 'D') && (cs[d + 2] == 'f' || cs[d + 2] == 'F')
        }
    }
}

/// The display name derived from a document path: its file name, or the
/// fixed placeholder when the path has no extractable file name.
pub open spec fn display_name_spec(path: Seq<char>) -> Seq<char> {
    match file_name_of(path) {
        Some(b) => b,
        None => "document.pdf"@,
    }
}

/// Derives the display name for a document loaded from `path`.
pub fn display_name(path: &str) -> (r: String)
    ensures
        r@ == display_name_spec(path@),
{
    let cs = str_chars(path);
    let n = cs.len();
    let cut = component_start(&cs);
    let comp = subvec(&cs, cut, n);
    proof {
        assert(comp@ =~= cs@.skip(cut as int));
        lemma_no_file_chars(comp@);
    }
    let len = n - cut;
    let degenerate = len == 0 || (len == 1 && comp[0] == '.') || (len == 2 && comp[0] == '.'
        && comp[1] == '.');
    if degenerate {
        String::from_str("document.pdf")
    } else {
        chars_string(&comp)
    }
}

/// Joins a directory path and a file name, inserting a `/` only when needed.
pub fn join_path(dir: &str, name: &str) -> (r: String)
    ensures
        r@ == join_spec(dir@, name@),
{
    let cs = str_chars(dir);
    let n = cs.len();
    let mut r = chars_string(&cs);
    if n > 0 && !is_sep_char(cs[n - 1]) {
        crate::text::push_char(&mut r, '/');
        proof {
            assert(r@ =~= dir@ + seq!['/']);
        }
    }
    r.append(name);
    r
}

/// The fixed on-disk file name of the signature collection, inside the
/// per-user application data directory.
pub fn signatures_path(data_dir: Option<&String>) -> (r: Result<String, StoreError>)
    ensures
        data_dir is None <==> r == Err::<String, StoreError>(StoreError::DirectoryUnavailable),
        data_dir matches Some(d) ==> r matches Ok(p) && p@ == join_spec(d@, "signatures.json"@),
{
    match data_dir {
        None => Err(StoreError::DirectoryUnavailable),
        Some(d) => Ok(join_path(d.as_str(), "signatures.json")),
    }
}

/// The fixed on-disk file name of the snippet collection, inside the
/// per-user application data directory.
pub fn snippets_path(data_dir: Option<&String>) -> (r: Result<String, StoreError>)
    ensures
        data_dir is None <==> r == Err::<String, StoreError>(StoreError::DirectoryUnavailable),
        data_dir matches Some(d) ==> r matches Ok(p) && p@ == join_spec(d@, "snippets.json"@),
{
    match data_dir {
        None => Err(StoreError::DirectoryUnavailable),
        Some(d) => Ok(join_path(d.as_str(), "snippets.json")),
    }
}

} // verus!
