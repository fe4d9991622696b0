//! The data model: stored signature assets and the transient payloads of the
//! document I/O and file-open flows.

use vstd::prelude::*;

verus! {

/// One user-created signature image, persisted verbatim as part of the
/// signature collection. `id` uniqueness is the caller's responsibility; the
/// store persists whatever collection it is given.
#[derive(Debug, Clone)]
pub struct StoredSignature {
    pub id: String,
    pub name: String,
    pub mime: String,
    pub bytes: Vec<u8>,
    pub natural_w: u32,
    pub natural_h: u32,
}

/// The mathematical value of a [`StoredSignature`].
pub struct SignatureView {
    pub id: Seq<char>,
    pub name: Seq<char>,
    pub mime: Seq<char>,
    pub bytes: Seq<u8>,
    pub natural_w: u32,
    pub natural_h: u32,
}

impl View for StoredSignature {
    type V = SignatureView;

    open spec fn view(&self) -> SignatureView {
        SignatureView {
            id: self.id@,
            name: self.name@,
            mime: self.mime@,
            bytes: self.bytes@,
            natural_w: self.natural_w,
            natural_h: self.natural_h,
        }
    }
}

impl DeepView for StoredSignature {
    type V = SignatureView;

    open spec fn deep_view(&self) -> SignatureView {
        self.view()
    }
}

/// Element-wise comparison of two byte vectors.
pub fn bytes_eq(a: &Vec<u8>, b: &Vec<u8>) -> (r: bool)
    ensures
        r == (a@ == b@),
{
    if a.len() != b.len() {
        return false;
    }
    let mut i: usize = 0;
    while i < a.len()
        invariant
            i <= a@.len() == b@.len(),
            forall|j: int| 0 <= j < i ==> a@[j] == b@[j],
        decreases a@.len() - i,
    {
        if a[i] != b[i] {
            return false;
        }
        i = i + 1;
    }
    proof {
        assert(a@ =~= b@);
    }
    true
}

impl PartialEq for StoredSignature {
    fn eq(&self, other: &StoredSignature) -> (r: bool) {
        self.id == other.id && self.name == other.name && self.mime == other.mime && bytes_eq(
            &self.bytes,
            &other.bytes,
        ) && self.natural_w == other.natural_w && self.natural_h == other.natural_h
    }
}

impl vstd::std_specs::cmp::PartialEqSpecImpl for StoredSignature {
    open spec fn obeys_eq_spec() -> bool {
        true
    }

    open spec fn eq_spec(&self, other: &StoredSignature) -> bool {
        self@ == other@
    }
}

/// A document loaded from an explicit path: its raw bytes and the display
/// name derived from the path.
pub struct LoadedPdf {
    pub bytes: Vec<u8>,
    pub name: String,
}

/// The one-way notification that a PDF at the given path should be opened by
/// the UI layer.
pub struct OpenPdfEvent {
    pub path: String,
}

} // verus!
