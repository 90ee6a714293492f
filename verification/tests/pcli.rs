use penumbra_logic::dao::AssetId;
use penumbra_logic::pcli::{balance_request_asset_ids, DaoCmd};

#[test]
fn request_all_assets() {
    assert!(balance_request_asset_ids(None).is_empty());
}

#[test]
fn request_one_asset() {
    let ids = balance_request_asset_ids(Some(AssetId([3u8; 32])));
    assert_eq!(ids.len(), 1);
    assert_eq!(ids[0].0, [3u8; 32]);
}

#[test]
fn balance_command_holds_asset() {
    let cmd = DaoCmd::Balance { asset: Some("upenumbra".to_string()) };
    match cmd {
        DaoCmd::Balance { asset } => assert_eq!(asset.as_deref(), Some("upenumbra")),
    }
}
