use dlxt::download::{collect_completions, plan_downloads, Downloader, OnDuplicated};
use dlxt::paths::{dedup_sources, file_name_of, zip_file_name};

#[test]
fn dedup_keeps_first_occurrences_in_order() {
    let src = vec![
        "a".to_string(),
        "b".to_string(),
        "a".to_string(),
        "c".to_string(),
        "b".to_string(),
    ];
    let once = dedup_sources(&src);
    assert_eq!(once, vec!["a".to_string(), "b".to_string(), "c".to_string()]);
}

#[test]
fn dedup_twice_equals_dedup_once() {
    let src = vec![
        "x".to_string(),
        "y".to_string(),
        "x".to_string(),
        "x".to_string(),
        "z".to_string(),
    ];
    let once = dedup_sources(&src);
    let twice = dedup_sources(&once);
    assert_eq!(twice, once);
}

#[test]
fn file_name_comes_from_the_last_segment() {
    assert_eq!(file_name_of("http://h/a.zip"), Some("a.zip".to_string()));
    assert_eq!(file_name_of("http://h/"), Some("h".to_string()));
    assert_eq!(file_name_of("a/b/c.tar.gz"), Some("c.tar.gz".to_string()));
    assert_eq!(file_name_of("a/./b"), Some("b".to_string()));
    assert_eq!(file_name_of("a/.."), None);
    assert_eq!(file_name_of(""), None);
    assert_eq!(file_name_of("/"), None);
}

#[test]
fn zip_file_name_pairs_paths_with_names() {
    let paths = vec!["d/x.tar".to_string(), "nope/".to_string()];
    let pairs = zip_file_name(&paths);
    assert_eq!(pairs, vec![
        ("d/x.tar".to_string(), "x.tar".to_string()),
        ("nope/".to_string(), "nope".to_string()),
    ]);
}

#[test]
fn empty_source_list_is_a_no_op() {
    let plan = plan_downloads(&Vec::new(), &Vec::new(), OnDuplicated::Rename);
    assert_eq!(plan.len(), 0);
    let done = collect_completions(&plan, &Vec::new());
    assert_eq!(done.len(), 0);
}

#[test]
fn downloader_defaults_skip_and_three_parallel() {
    let d = Downloader::new();
    assert_eq!(d.on_duplicated, OnDuplicated::Skip);
    assert_eq!(d.parallel, 3);
    let d = d.on_duplicated(OnDuplicated::Rename).parallel(5);
    assert_eq!(d.on_duplicated, OnDuplicated::Rename);
    assert_eq!(d.parallel, 5);
}

#[test]
fn plan_keeps_an_unsupported_extension() {
    let sources = vec!["http://h/a.zip".to_string()];
    let plan = plan_downloads(&sources, &Vec::new(), OnDuplicated::Skip);
    assert_eq!(plan.len(), 1);
    assert_eq!(plan[0].url, "http://h/a.zip");
    assert_eq!(plan[0].name, "a.zip");
    assert_eq!(plan[0].token, 0);
}

#[test]
fn plan_renames_colliding_file_names() {
    let sources = vec!["http://a/f.zip".to_string(), "http://b/f.zip".to_string()];
    let plan = plan_downloads(&sources, &Vec::new(), OnDuplicated::Rename);
    assert_eq!(plan.len(), 2);
    assert_eq!(plan[0].name, "f.zip");
    assert_eq!(plan[1].name, "f2.zip");
    assert_eq!(plan[0].token, 0);
    assert_eq!(plan[1].token, 1);
}

#[test]
fn plan_skips_colliding_file_names_under_skip() {
    let sources = vec!["http://a/f.zip".to_string(), "http://b/f.zip".to_string()];
    let plan = plan_downloads(&sources, &Vec::new(), OnDuplicated::Skip);
    assert_eq!(plan.len(), 1);
    assert_eq!(plan[0].name, "f.zip");
}

#[test]
fn plan_drops_sources_without_a_name() {
    let sources = vec!["..".to_string(), "http://h/x.tar.gz".to_string()];
    let plan = plan_downloads(&sources, &Vec::new(), OnDuplicated::Skip);
    assert_eq!(plan.len(), 1);
    assert_eq!(plan[0].name, "x.tar.gz");
}

#[test]
fn one_failed_transfer_leaves_the_other_two() {
    let sources = vec![
        "http://h/a.bin".to_string(),
        "http://h/b.bin".to_string(),
        "http://h/c.bin".to_string(),
    ];
    let plan = plan_downloads(&sources, &Vec::new(), OnDuplicated::Skip);
    assert_eq!(plan.len(), 3);
    let outcomes = vec![(0usize, true), (1usize, false), (2usize, true)];
    let done = collect_completions(&plan, &outcomes);
    assert_eq!(done, vec!["a.bin".to_string(), "c.bin".to_string()]);
}

#[test]
fn completions_come_back_in_completion_order() {
    let sources = vec!["http://h/a.bin".to_string(), "http://h/b.bin".to_string()];
    let plan = plan_downloads(&sources, &Vec::new(), OnDuplicated::Skip);
    let outcomes = vec![(1usize, true), (0usize, true)];
    let done = collect_completions(&plan, &outcomes);
    assert_eq!(done, vec!["b.bin".to_string(), "a.bin".to_string()]);
}
