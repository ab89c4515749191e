use crypto_ecosystems::diffing::{find_misordered_elements_diff, strings_misordered};

#[test]
fn misordered_pair_yields_a_diff() {
    let items = vec!["b".to_string(), "a".to_string()];
    let diff = find_misordered_elements_diff(&items);
    assert!(diff.is_some());
    let text = diff.unwrap();
    assert!(!text.is_empty());
    assert!(text.contains("a"));
    assert!(text.contains("b"));
}

#[test]
fn ordered_pair_yields_no_diff() {
    let items = vec!["a".to_string(), "b".to_string()];
    assert_eq!(find_misordered_elements_diff(&items), None);
}

#[test]
fn empty_list_yields_no_diff() {
    let items: Vec<String> = vec![];
    assert_eq!(find_misordered_elements_diff(&items), None);
}

#[test]
fn order_is_case_insensitive() {
    let items = vec!["Alpha".to_string(), "beta".to_string()];
    assert_eq!(find_misordered_elements_diff(&items), None);
    let items = vec!["beta".to_string(), "Alpha".to_string()];
    assert!(find_misordered_elements_diff(&items).is_some());
}

#[test]
fn equal_keys_keep_their_relative_order() {
    let items = vec!["A".to_string(), "a".to_string()];
    assert_eq!(find_misordered_elements_diff(&items), None);
    let items = vec!["a".to_string(), "A".to_string()];
    assert_eq!(find_misordered_elements_diff(&items), None);
}

#[test]
fn misordered_check_agrees_with_diff() {
    let misordered = vec!["z".to_string(), "y".to_string(), "x".to_string()];
    assert!(strings_misordered(&misordered));
    assert!(find_misordered_elements_diff(&misordered).is_some());
    let ordered = vec!["x".to_string(), "y".to_string(), "z".to_string()];
    assert!(!strings_misordered(&ordered));
    assert_eq!(find_misordered_elements_diff(&ordered), None);
}
