//! The JSON collection store: full-replace save and bootstrap-aware load for
//! the signature and snippet repositories, with the laws that govern them.
//!
//! The store itself is pure text work: loading interprets the contents of the
//! collection file (`None` when the file does not exist on disk), and saving
//! produces the complete new contents of the file. Reading and writing the
//! file is the hosting layer's job.

use vstd::prelude::*;
use crate::decode::{decode_signatures, decode_snippets};
use crate::encode::{encode_signatures, encode_snippets};
use crate::errors::StoreError;
use crate::json::{
    enc_sigs,
    enc_strs,
    lemma_signatures_roundtrip,
    lemma_snippets_roundtrip,
    parse_signatures,
    parse_snippets,
};
use crate::model::{SignatureView, StoredSignature};

verus! {

/// The file contents denoted by an optional in-memory copy.
pub open spec fn file_view(contents: Option<&String>) -> Option<Seq<char>> {
    match contents {
        Some(s) => Some(s@),
        None => None,
    }
}

/// What loading the snippet collection from a file with the given contents
/// yields: the empty collection when the file is absent, the parsed
/// collection when its text is valid, and a decode error otherwise.
pub open spec fn load_snippets_model(file: Option<Seq<char>>) -> Result<Seq<Seq<char>>, StoreError> {
    match file {
        None => Ok(Seq::empty()),
        Some(text) => match parse_snippets(text) {
            Some(c) => Ok(c),
            None => Err(StoreError::DecodeError),
        },
    }
}

/// The file contents after saving the snippet collection `c`: the canonical
/// encoding of `c` alone — a full replace, whatever the file held before.
pub open spec fn save_snippets_model(file: Option<Seq<char>>, c: Seq<Seq<char>>) -> Option<
    Seq<char>,
> {
    Some(enc_strs(c))
}

/// The signature-collection analogue of [`load_snippets_model`].
pub open spec fn load_signatures_model(file: Option<Seq<char>>) -> Result<
    Seq<SignatureView>,
    StoreError,
> {
    match file {
        None => Ok(Seq::empty()),
        Some(text) => match parse_signatures(text) {
            Some(c) => Ok(c),
            None => Err(StoreError::DecodeError),
        },
    }
}

/// The signature-collection analogue of [`save_snippets_model`].
pub open spec fn save_signatures_model(file: Option<Seq<char>>, c: Seq<SignatureView>) -> Option<
    Seq<char>,
> {
    Some(enc_sigs(c))
}

/// Loads the snippet collection from the collection file's contents
/// (`None` when the file does not exist).
pub fn load_snippets(contents: Option<&String>) -> (r: Result<Vec<String>, StoreError>)
    ensures
        r matches Ok(c) ==> load_snippets_model(file_view(contents)) == Ok::<
            Seq<Seq<char>>,
            StoreError,
        >(c.deep_view()),
        r matches Err(e) ==> load_snippets_model(file_view(contents)) == Err::<
            Seq<Seq<char>>,
            StoreError,
        >(e),
{
    match contents {
        None => {
            let c: Vec<String> = Vec::new();
            proof {
                assert(c.deep_view() =~= Seq::<Seq<char>>::empty());
            }
            Ok(c)
        },
        Some(text) => decode_snippets(text.as_str()),
    }
}

/// Renders the complete new contents of the snippet collection file: a
/// full-replace save of exactly the given collection.
pub fn save_snippets(snippets: &Vec<String>) -> (r: String)
    ensures
        forall|file: Option<Seq<char>>| save_snippets_model(file, snippets.deep_view()) == Some(
            r@,
        ),
        r@ == enc_strs(snippets.deep_view()),
{
    encode_snippets(snippets)
}

/// Loads the signature collection from the collection file's contents
/// (`None` when the file does not exist).
pub fn load_signatures(contents: Option<&String>) -> (r: Result<Vec<StoredSignature>, StoreError>)
    ensures
        r matches Ok(c) ==> load_signatures_model(file_view(contents)) == Ok::<
            Seq<SignatureView>,
            StoreError,
        >(c.deep_view()),
        r matches Err(e) ==> load_signatures_model(file_view(contents)) == Err::<
            Seq<SignatureView>,
            StoreError,
        >(e),
{
    match contents {
        None => {
            let c: Vec<StoredSignature> = Vec::new();
            proof {
                assert(c.deep_view() =~= Seq::<SignatureView>::empty());
            }
            Ok(c)
        },
        Some(text) => decode_signatures(text.as_str()),
    }
}

/// Renders the complete new contents of the signature collection file: a
/// full-replace save of exactly the given collection.
pub fn save_signatures(signatures: &Vec<StoredSignature>) -> (r: String)
    ensures
        forall|file: Option<Seq<char>>| save_signatures_model(file, signatures.deep_view()) == Some(
            r@,
        ),
        r@ == enc_sigs(signatures.deep_view()),
{
    encode_signatures(signatures)
}

/// Loading from a missing collection file yields the empty collection, not
/// an error — the bootstrap invariant, for both repositories.
pub proof fn lemma_load_missing_is_empty()
    ensures
        load_snippets_model(None) == Ok::<Seq<Seq<char>>, StoreError>(Seq::empty()),
        load_signatures_model(None) == Ok::<Seq<SignatureView>, StoreError>(Seq::empty()),
{
}

/// Round trip: saving a snippet collection and loading the saved file yields
/// exactly that collection, whatever the file held before.
pub proof fn lemma_snippets_save_load_roundtrip(file: Option<Seq<char>>, c: Seq<Seq<char>>)
    ensures
        load_snippets_model(save_snippets_model(file, c)) == Ok::<Seq<Seq<char>>, StoreError>(c),
{
    lemma_snippets_roundtrip(c);
}

/// Round trip: saving a signature collection and loading the saved file
/// yields exactly that collection, whatever the file held before.
pub proof fn lemma_signatures_save_load_roundtrip(file: Option<Seq<char>>, c: Seq<SignatureView>)
    ensures
        load_signatures_model(save_signatures_model(file, c)) == Ok::<
            Seq<SignatureView>,
            StoreError,
        >(c),
{
    lemma_signatures_roundtrip(c);
}

/// Save is a full replace: after saving `c1` and then `c2`, loading yields
/// exactly `c2`, with no residue of `c1`.
pub proof fn lemma_snippets_full_replace(
    file: Option<Seq<char>>,
    c1: Seq<Seq<char>>,
    c2: Seq<Seq<char>>,
)
    ensures
        load_snippets_model(save_snippets_model(save_snippets_model(file, c1), c2)) == Ok::<
            Seq<Seq<char>>,
            StoreError,
        >(c2),
{
    lemma_snippets_save_load_roundtrip(save_snippets_model(file, c1), c2);
}

/// Save is a full replace: the signature-collection analogue of
/// [`lemma_snippets_full_replace`].
pub proof fn lemma_signatures_full_replace(
    file: Option<Seq<char>>,
    c1: Seq<SignatureView>,
    c2: Seq<SignatureView>,
)
    ensures
        load_signatures_model(save_signatures_model(save_signatures_model(file, c1), c2)) == Ok::<
            Seq<SignatureView>,
            StoreError,
        >(c2),
{
    lemma_signatures_save_load_roundtrip(save_signatures_model(file, c1), c2);
}

} // verus!
