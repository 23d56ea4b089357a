use goliath::code_analysis::{clause_catalog, generate_function_specs, Clause, ClauseKind};

fn clause_block(name: &str) -> String {
    let mut s = String::new();
    generate_function_specs(&mut s, name, "");
    s
}

#[test]
fn initialize_has_one_precondition_then_three_postconditions() {
    let cs: Vec<Clause> = clause_catalog("initialize");
    assert_eq!(cs.len(), 4);
    assert!(matches!(cs[0].kind, ClauseKind::Requires));
    assert!(matches!(cs[1].kind, ClauseKind::Ensures));
    assert!(matches!(cs[2].kind, ClauseKind::Ensures));
    assert!(matches!(cs[3].kind, ClauseKind::Ensures));
    assert_eq!(cs[0].text, "!initialized()");
    assert_eq!(cs[1].text, "initialized()");
    assert_eq!(cs[2].text, "exists<Capabilities>(resource_account_address())");
    assert_eq!(cs[3].text, "total_supply == 0");
}

#[test]
fn initialize_block_renders_exactly() {
    let expected = "    \x1b[1;36m// Can only initialize once\x1b[0m\n    requires !initialized();\n    \x1b[1;36m// Post-conditions\x1b[0m\n    ensures initialized();\n    ensures exists<Capabilities>(resource_account_address());\n    ensures total_supply == 0;\n";
    assert_eq!(clause_block("initialize"), expected);
}

#[test]
fn toggle_freeze_all_selects_the_freeze_set() {
    let expected = "    \x1b[1;36m// Authorization required\x1b[0m\n    requires is_authorized(signer);\n    \x1b[1;36m// Freeze capability must exist\x1b[0m\n    requires exists<Capabilities>(resource_account_address());\n    \x1b[1;36m// Post-conditions\x1b[0m\n    ensures forall addr in addresses: is_frozen(addr);\n";
    assert_eq!(clause_block("toggle_freeze_all"), expected);
    assert_ne!(clause_block("toggle_freeze_all"), clause_block("toggle"));
}

#[test]
fn unknown_name_selects_the_default_set() {
    let expected =
        "    \x1b[1;36m// Module must be initialized\x1b[0m\n    requires initialized();\n";
    assert_eq!(clause_block("transfer"), expected);
}

#[test]
fn burn_block_renders_exactly() {
    let expected = "    \x1b[1;36m// Module must be initialized\x1b[0m\n    requires initialized();\n    \x1b[1;36m// Burn capability must exist\x1b[0m\n    requires exists<Capabilities>(resource_account_address());\n    \x1b[1;36m// Supply changes\x1b[0m\n    ensures coin.value > 0 ==> total_supply == old(total_supply) - coin.value;\n    ensures coin.value == 0 ==> total_supply == old(total_supply);\n";
    assert_eq!(clause_block("burn"), expected);
}

#[test]
fn burn_from_block_renders_exactly() {
    let expected = "    \x1b[1;36m// Authorization required\x1b[0m\n    requires is_authorized(signer);\n    \x1b[1;36m// Burn capability must exist\x1b[0m\n    requires exists<Capabilities>(resource_account_address());\n    \x1b[1;36m// Amount checks\x1b[0m\n    requires burn_amount > 0;\n    requires coin_store[addr].value >= burn_amount;\n    ensures total_supply == old(total_supply) - burn_amount;\n";
    assert_eq!(clause_block("burn_from"), expected);
}

#[test]
fn mint_and_mint_fa_share_one_clause_set() {
    let expected = "    \x1b[1;36m// Module must be initialized\x1b[0m\n    requires initialized();\n    \x1b[1;36m// Mint capability must exist\x1b[0m\n    requires exists<Capabilities>(resource_account_address());\n    \x1b[1;36m// Amount checks\x1b[0m\n    requires amount > 0;\n    ensures result.value == amount;\n    ensures total_supply == old(total_supply) + amount;\n";
    assert_eq!(clause_block("mint"), expected);
    assert_eq!(clause_block("mint_fa"), expected);
}

#[test]
fn initialized_block_renders_exactly() {
    let expected = "    \x1b[1;36m// Check capabilities existence\x1b[0m\n    ensures result == exists<Capabilities>(resource_account_address());\n";
    assert_eq!(clause_block("initialized"), expected);
}

#[test]
fn metadata_block_renders_exactly() {
    let expected = "    \x1b[1;36m// Module must be initialized\x1b[0m\n    requires initialized();\n    \x1b[1;36m// Metadata must exist\x1b[0m\n    ensures exists<0x1::fungible_asset::Metadata>(result);\n";
    assert_eq!(clause_block("metadata"), expected);
}

#[test]
fn reconcile_block_renders_exactly() {
    let expected = "    \x1b[1;36m// Authorization required\x1b[0m\n    requires is_authorized(signer);\n    \x1b[1;36m// Module must be initialized\x1b[0m\n    requires initialized();\n    \x1b[1;36m// Balance changes\x1b[0m\n    ensures balance(signer_address()) == old(balance(signer_address())) + amount;\n";
    assert_eq!(clause_block("reconcile"), expected);
}

#[test]
fn exact_names_win_over_the_freeze_rule_order() {
    // `unfreeze` is no exact catalog entry but holds the substring.
    let frozen = clause_block("unfreeze");
    assert!(frozen.contains("Freeze capability must exist"));
    // an exact entry whose name does not hold `freeze` is unaffected
    assert!(!clause_block("initialize").contains("Freeze"));
}
