use rime_cli::schema_list::new_schemata;

fn strings(v: &[&str]) -> Vec<String> {
    v.iter().map(|s| s.to_string()).collect()
}

#[test]
fn adding_to_empty_list_adds_all_in_order() {
    assert_eq!(new_schemata(&strings(&["protoss", "terran"]), &[]), strings(&["protoss", "terran"]));
}

#[test]
fn adding_skips_listed_schemata() {
    let existing = strings(&["protoss", "terran"]);
    assert_eq!(new_schemata(&strings(&["terran", "zerg"]), &existing), strings(&["zerg"]));
}

#[test]
fn adding_twice_adds_nothing() {
    let requested = strings(&["protoss", "terran"]);
    let mut list = strings(&["zerg"]);
    let first = new_schemata(&requested, &list);
    list.extend(first);
    assert!(new_schemata(&requested, &list).is_empty());
}

#[test]
fn adding_keeps_repeated_requests() {
    assert_eq!(new_schemata(&strings(&["a", "a"]), &[]), strings(&["a", "a"]));
}
