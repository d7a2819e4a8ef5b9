use std::collections::HashMap;

use kbc_core::data_parse::derive_mode_names;

#[test]
fn series_are_named_after_their_first_named_gacha() {
    let names: HashMap<i64, String> =
        HashMap::from([(5, "five".to_owned()), (3, "three".to_owned()), (9, "nine".to_owned())]);
    let mappings: HashMap<i64, i64> = HashMap::from([(5, 1), (3, 1), (9, 2), (4, 3), (2, 1)]);
    let derived = derive_mode_names(&names, &mappings);
    assert_eq!(derived.len(), 2);
    assert_eq!(derived.get(&1).map(String::as_str), Some("three"));
    assert_eq!(derived.get(&2).map(String::as_str), Some("nine"));
    assert!(derived.get(&3).is_none());
}
