//! The `dao` query command of the command-line client.
use vstd::prelude::*;

use crate::dao::AssetId;

verus! {

/// Queries about the DAO.
pub enum DaoCmd {
    /// Get the balance in the DAO, or the balance of a specific asset.
    Balance {
        /// Get only the balance of the specified asset.
        asset: Option<String>,
    },
}

/// The asset ids a DAO balance query asks for: none (meaning every asset)
/// when no asset was given, else just the one given.
pub fn balance_request_asset_ids(asset_id: Option<AssetId>) -> (r: Vec<AssetId>)
    ensures
        match asset_id {
            None => r@ == Seq::<AssetId>::empty(),
            Some(id) => r@ == seq![id],
        },
{
    match asset_id {
        None => Vec::new(),
        Some(id) => {
            let mut ids = Vec::new();
            ids.push(id);
            ids
        },
    }
}

} // verus!
