use dlxt::download::OnDuplicated;
use dlxt::resolve::{resolve, Resolved};

#[test]
fn missing_name_is_kept() {
    let existing = vec!["b.txt".to_string()];
    match resolve(&existing, "a.txt", OnDuplicated::Rename) {
        Resolved::Fresh(n) => assert_eq!(n, "a.txt"),
        _ => panic!("expected a fresh name"),
    }
}

#[test]
fn rename_picks_lowest_free_suffix() {
    let existing = vec!["a.txt".to_string(), "a2.txt".to_string()];
    match resolve(&existing, "a.txt", OnDuplicated::Rename) {
        Resolved::Fresh(n) => assert_eq!(n, "a3.txt"),
        _ => panic!("expected a fresh name"),
    }
}

#[test]
fn rename_without_extension_appends_no_dot() {
    let existing = vec!["data".to_string(), "data2".to_string(), "data3".to_string()];
    match resolve(&existing, "data", OnDuplicated::Rename) {
        Resolved::Fresh(n) => assert_eq!(n, "data4"),
        _ => panic!("expected a fresh name"),
    }
}

#[test]
fn rename_skips_over_taken_gaps() {
    let existing = vec![
        "a.txt".to_string(),
        "a2.txt".to_string(),
        "a3.txt".to_string(),
        "a5.txt".to_string(),
    ];
    match resolve(&existing, "a.txt", OnDuplicated::Rename) {
        Resolved::Fresh(n) => assert_eq!(n, "a4.txt"),
        _ => panic!("expected a fresh name"),
    }
}

#[test]
fn rename_counts_past_one_digit() {
    let mut existing = vec!["a.txt".to_string()];
    let mut k = 2;
    while k <= 10 {
        existing.push(format!("a{}.txt", k));
        k += 1;
    }
    match resolve(&existing, "a.txt", OnDuplicated::Rename) {
        Resolved::Fresh(n) => assert_eq!(n, "a11.txt"),
        _ => panic!("expected a fresh name"),
    }
}

#[test]
fn skip_never_touches_an_existing_destination() {
    let existing = vec!["a.txt".to_string()];
    match resolve(&existing, "a.txt", OnDuplicated::Skip) {
        Resolved::Skipped => {},
        _ => panic!("expected the source to be skipped"),
    }
}

#[test]
fn replace_resolves_to_the_naive_path() {
    let existing = vec!["a.txt".to_string()];
    match resolve(&existing, "a.txt", OnDuplicated::Replace) {
        Resolved::Overwrite(n) => assert_eq!(n, "a.txt"),
        _ => panic!("expected an overwrite of the naive path"),
    }
}
