use goliath::params::process_params;

#[test]
fn explicit_name_kept_unchanged() {
    assert_eq!(process_params("x: u64", "anything"), "x: u64");
}

#[test]
fn explicit_name_keeps_full_type_after_first_colon() {
    assert_eq!(
        process_params("x: 0x1::coin::Coin<MOD>", "burn"),
        "x: 0x1::coin::Coin<MOD>"
    );
}

#[test]
fn unnamed_u64_in_mint_becomes_amount() {
    assert_eq!(process_params("u64", "mint"), "amount: u64");
}

#[test]
fn unnamed_u64_in_mint_fa_becomes_amount() {
    assert_eq!(process_params("u64", "mint_fa"), "amount: u64");
}

#[test]
fn unnamed_u64_in_reconcile_becomes_amount() {
    assert_eq!(process_params("u64", "reconcile"), "amount: u64");
}

#[test]
fn unnamed_u64_in_burn_from_becomes_burn_amount() {
    assert_eq!(process_params("u64", "burn_from"), "burn_amount: u64");
}

#[test]
fn unnamed_u64_elsewhere_becomes_value() {
    assert_eq!(process_params("u64", "transfer"), "value: u64");
}

#[test]
fn signer_marker_names_signer_in_any_function() {
    assert_eq!(process_params("signer", "mint"), "signer: signer");
    assert_eq!(process_params("&signer", "transfer"), "signer: &signer");
    assert_eq!(process_params("&signer", "burn_from"), "signer: &signer");
}

#[test]
fn coin_marker_names_coin() {
    assert_eq!(
        process_params(": 0x1::coin::Coin<MOD>", "burn"),
        "coin: 0x1::coin::Coin<MOD>"
    );
}

#[test]
fn fungible_asset_marker_names_fa() {
    assert_eq!(
        process_params(": 0x1::fungible_asset::FungibleAsset", "deposit"),
        "fa: 0x1::fungible_asset::FungibleAsset"
    );
}

#[test]
fn address_vector_marker_names_addresses() {
    assert_eq!(
        process_params("vector<address>", "freeze_accounts"),
        "addresses: vector<address>"
    );
}

#[test]
fn address_marker_names_addr() {
    assert_eq!(process_params("address", "transfer"), "addr: address");
}

#[test]
fn unknown_type_names_value() {
    assert_eq!(process_params("bool", "transfer"), "value: bool");
}

#[test]
fn blank_slices_are_dropped() {
    assert_eq!(process_params("a: u8,", "transfer"), "a: u8");
    assert_eq!(process_params("  ,  ", "transfer"), "");
    assert_eq!(process_params("", "transfer"), "");
}

#[test]
fn order_preserved_and_joined_with_comma_space() {
    assert_eq!(
        process_params("u64, &signer, to: address", "mint"),
        "amount: u64, signer: &signer, to: address"
    );
}
