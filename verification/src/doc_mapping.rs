//! The identifier of a document mapping.

use vstd::prelude::*;

verus! {

/// The unique identifier of a document mapping, as the bytes that travel on
/// the wire.
#[derive(Clone, Debug, PartialEq)]
pub struct DocMappingUid {
    pub doc_mapping_uid: Vec<u8>,
}

} // verus!
