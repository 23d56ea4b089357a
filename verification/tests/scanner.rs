use goliath::signatures::extract_signatures;

#[test]
fn three_declarations_in_order_with_increasing_offsets() {
    let src = "fun a()\nfun b(x: u64)\npublic fun c<T>(y: address)\n";
    let sigs = extract_signatures(src);
    assert_eq!(sigs.len(), 3);
    assert_eq!(sigs[0].name, "a");
    assert_eq!(sigs[1].name, "b");
    assert_eq!(sigs[2].name, "c");
    assert_eq!(sigs[0].offset, 0);
    assert_eq!(sigs[1].offset, 8);
    assert_eq!(sigs[2].offset, 22);
    assert!(sigs[0].offset < sigs[1].offset && sigs[1].offset < sigs[2].offset);
    assert_eq!(sigs[0].params_raw, "");
    assert_eq!(sigs[1].params_raw, "x: u64");
    assert_eq!(sigs[2].params_raw, "y: address");
    assert_eq!(sigs[0].generics, None);
    assert_eq!(sigs[2].generics, Some("<T>".to_string()));
}

#[test]
fn modifiers_in_any_number_and_order() {
    let src = "public(friend) entry fun pay(a: u64)\nnative entry public(package) fun get()\nentry entry fun twice()\n";
    let sigs = extract_signatures(src);
    assert_eq!(sigs.len(), 3);
    assert_eq!(sigs[0].name, "pay");
    assert_eq!(sigs[1].name, "get");
    assert_eq!(sigs[2].name, "twice");
}

#[test]
fn parameter_list_truncated_at_first_closing_parenthesis() {
    let src = "fun apply(f: (u64, u64), x: u64)\n";
    let sigs = extract_signatures(src);
    assert_eq!(sigs.len(), 1);
    assert_eq!(sigs[0].params_raw, "f: (u64, u64");
}

#[test]
fn declaration_without_closing_parenthesis_is_not_matched() {
    let sigs = extract_signatures("fun broken(a: u64");
    assert_eq!(sigs.len(), 0);
}

#[test]
fn declaration_not_at_line_start_is_not_matched() {
    let sigs = extract_signatures("let x = 1; fun sneaky(a)\n");
    assert_eq!(sigs.len(), 0);
}

#[test]
fn second_declaration_on_same_line_is_not_matched() {
    let sigs = extract_signatures("fun a() fun b()\n");
    assert_eq!(sigs.len(), 1);
    assert_eq!(sigs[0].name, "a");
}

#[test]
fn leading_whitespace_run_starts_the_match_at_the_earlier_line_start() {
    let sigs = extract_signatures("\n   fun d()\n");
    assert_eq!(sigs.len(), 1);
    assert_eq!(sigs[0].name, "d");
    assert_eq!(sigs[0].offset, 0);
}

#[test]
fn offsets_are_byte_offsets_in_utf8() {
    let src = "// \u{03c0}\nfun mint(u64)\n";
    let sigs = extract_signatures(src);
    assert_eq!(sigs.len(), 1);
    assert_eq!(sigs[0].offset, 6);
}

#[test]
fn empty_input_yields_no_signatures() {
    assert_eq!(extract_signatures("").len(), 0);
}
