use goliath::code_analysis::generate_spec_template;

fn header() -> String {
    let mut s = String::new();
    s.push_str("\x1b[1;34m// Module Specifications\x1b[0m\n");
    s.push_str("\x1b[1;30m// ----------------------------------------\x1b[0m\n");
    s.push_str("spec module {\n");
    s.push_str("    invariant total_supply >= 0;\n");
    s.push_str(
        "    invariant forall addr: address: exists<Capabilities>(addr) ==> addr == resource_account;\n",
    );
    s.push_str("}\n");
    s.push_str("\x1b[1;30m// ----------------------------------------\x1b[0m\n\n");
    s
}

#[test]
fn zero_signatures_render_header_and_fallback_line_only() {
    let out = generate_spec_template("no declarations here");
    let expected = format!("{}// No functions found to generate specs.\n", header());
    assert_eq!(out, expected);
}

#[test]
fn empty_input_renders_header_and_fallback_line_only() {
    let out = generate_spec_template("");
    let expected = format!("{}// No functions found to generate specs.\n", header());
    assert_eq!(out, expected);
}

#[test]
fn full_pipeline_renders_two_blocks_exactly() {
    let src = "fun mint(u64, &signer)\npublic entry fun transfer(addr: address)\n";
    let out = generate_spec_template(src);
    let mut expected = header();
    expected.push_str("\x1b[1;34m// Function: mint\x1b[0m\n");
    expected.push_str("\x1b[1;30m// Line: 0\x1b[0m\n");
    expected.push_str("\x1b[1;30m// ----------------------------------------\x1b[0m\n");
    expected.push_str("spec mint(amount: u64, signer: &signer) {\n");
    expected.push_str("    \x1b[1;36m// Module must be initialized\x1b[0m\n");
    expected.push_str("    requires initialized();\n");
    expected.push_str("    \x1b[1;36m// Mint capability must exist\x1b[0m\n");
    expected.push_str("    requires exists<Capabilities>(resource_account_address());\n");
    expected.push_str("    \x1b[1;36m// Amount checks\x1b[0m\n");
    expected.push_str("    requires amount > 0;\n");
    expected.push_str("    ensures result.value == amount;\n");
    expected.push_str("    ensures total_supply == old(total_supply) + amount;\n");
    expected.push_str("}\n");
    expected.push_str("\x1b[1;30m// ----------------------------------------\x1b[0m\n\n");
    expected.push_str("\x1b[1;34m// Function: transfer\x1b[0m\n");
    expected.push_str("\x1b[1;30m// Line: 23\x1b[0m\n");
    expected.push_str("\x1b[1;30m// ----------------------------------------\x1b[0m\n");
    expected.push_str("spec transfer(addr: address) {\n");
    expected.push_str("    \x1b[1;36m// Module must be initialized\x1b[0m\n");
    expected.push_str("    requires initialized();\n");
    expected.push_str("}\n");
    expected.push_str("\x1b[1;30m// ----------------------------------------\x1b[0m\n\n");
    assert_eq!(out, expected);
}

#[test]
fn pipeline_is_deterministic_on_identical_input() {
    let src = "fun initialize(&signer)\nfun freeze_account(address)\nfun unknown(q: Q)\n";
    let first = generate_spec_template(src);
    let second = generate_spec_template(src);
    assert_eq!(first, second);
    let copy = String::from(src);
    let third = generate_spec_template(&copy);
    assert_eq!(first, third);
}

#[test]
fn number_of_blocks_equals_number_of_signatures() {
    let src = "fun a()\nfun b()\nfun c()\nfun d()\n";
    let out = generate_spec_template(src);
    assert_eq!(out.matches("// Function: ").count(), 4);
}
