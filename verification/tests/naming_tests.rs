use notes::naming::{generate_unique_name, u64_to_string};

fn names(v: &[&str]) -> Vec<String> {
    v.iter().map(|s| s.to_string()).collect()
}

#[test]
fn decimal_rendering_of_small_numbers() {
    assert_eq!(u64_to_string(0), "0");
    assert_eq!(u64_to_string(7), "7");
    assert_eq!(u64_to_string(10), "10");
    assert_eq!(u64_to_string(12345), "12345");
    assert_eq!(u64_to_string(u64::MAX), "18446744073709551615");
}

#[test]
fn unique_name_returns_candidate_when_free() {
    let existing = names(&["alpha", "beta"]);
    let r = generate_unique_name(&existing, "gamma".to_string());
    assert_eq!(r, "gamma");
}

#[test]
fn unique_name_appends_first_suffix() {
    let existing = names(&["a note"]);
    let r = generate_unique_name(&existing, "a note".to_string());
    assert_eq!(r, "a note #1");
}

#[test]
fn unique_name_takes_smallest_free_suffix() {
    let existing = names(&["a note", "a note #1", "a note #3"]);
    let r = generate_unique_name(&existing, "a note".to_string());
    assert_eq!(r, "a note #2");
}

#[test]
fn unique_name_fills_gap_before_extending() {
    let existing = names(&["x", "x #2"]);
    let r = generate_unique_name(&existing, "x".to_string());
    assert_eq!(r, "x #1");
}

#[test]
fn unique_name_on_empty_directory() {
    let existing: Vec<String> = Vec::new();
    let r = generate_unique_name(&existing, "a note".to_string());
    assert_eq!(r, "a note");
}
