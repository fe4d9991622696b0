//! The file-open event bridge's decision step, and the payload of a
//! direct document load.
//!
//! The bridge receives candidate paths (process arguments at startup, OS
//! open-with notifications later) and forwards exactly those that name an
//! existing PDF file. Delivering the notification — and probing the disk —
//! is the hosting layer's job; the decision itself is pure.

use vstd::prelude::*;
use crate::model::{LoadedPdf, OpenPdfEvent};
use crate::paths::{display_name, display_name_spec, is_pdf_path, is_pdf_spec};
use crate::text::str_chars;

verus! {

/// Decides one file-open candidate: a notification is produced exactly when
/// the path carries a `.pdf` extension (case-insensitively) and the file
/// exists on disk at filter time.
pub fn open_pdf_event(path: &str, exists_on_disk: bool) -> (r: Option<OpenPdfEvent>)
    ensures
        r is Some <==> (is_pdf_spec(path@) && exists_on_disk),
        r matches Some(e) ==> e.path@ == path@,
{
    if exists_on_disk && is_pdf_path(path) {
        Some(OpenPdfEvent { path: String::from_str(path) })
    } else {
        None
    }
}

/// Packages a document read from an explicit path: the raw bytes together
/// with the display name derived from the path.
pub fn loaded_pdf(path: &str, bytes: Vec<u8>) -> (r: LoadedPdf)
    ensures
        r.bytes@ == bytes@,
        r.name@ == display_name_spec(path@),
{
    let name = display_name(path);
    LoadedPdf { bytes: bytes, name: name }
}

} // verus!
