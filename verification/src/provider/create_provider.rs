//! A provider bound to one URL.

use crate::error::RpcHandlerError;
use crate::types::NetworkId;
use vstd::prelude::*;

verus! {

/// An endpoint of a known network.
#[derive(Debug)]
pub struct JsonRpcProvider {
    pub url: String,
    pub chain_id: NetworkId,
}

/// The provider for `url` on network `chain_id`. This never fails.
pub fn create_provider(url: String, chain_id: NetworkId) -> (provider: Result<
    JsonRpcProvider,
    RpcHandlerError,
>)
    ensures
        provider matches Ok(p) && p.url == url && p.chain_id == chain_id,
{
    Ok(JsonRpcProvider { url, chain_id })
}

} // verus!
