//! The arguments of the on-chain metadata the wizard attaches to a new
//! token. The wizard only ever asks for a name, a symbol and a URI; the
//! remaining knobs are fixed — no royalties, and the metadata stays mutable.

use vstd::prelude::*;

verus! {

/// What goes into the token's metadata account.
pub struct MetadataParams {
    pub name: Vec<u8>,
    pub symbol: Vec<u8>,
    pub uri: Vec<u8>,
    pub seller_fee_basis_points: u16,
    pub is_mutable: bool,
}

impl MetadataParams {
    /// Builds the metadata of a wizard-created token: the given name, symbol
    /// and URI, zero royalty basis points, and mutable metadata.
    pub fn new(name: Vec<u8>, symbol: Vec<u8>, uri: Vec<u8>) -> (r: MetadataParams)
        ensures
            r.name == name,
            r.symbol == symbol,
            r.uri == uri,
            r.seller_fee_basis_points == 0,
            r.is_mutable,
    {
        MetadataParams { name, symbol, uri, seller_fee_basis_points: 0, is_mutable: true }
    }
}

} // verus!
