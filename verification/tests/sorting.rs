//! The view sorter's buckets and the lexicographic ordering of names.

use quilter::{select_for_bucket, sort_names, sort_plan, unwanted_files};

fn names(list: &[&str]) -> Vec<Vec<u8>> {
    list.iter().map(|s| s.as_bytes().to_vec()).collect()
}

#[test]
fn buckets_partition_ten_views_three_folders() {
    // width = 10 / 3 = 3: buckets [0,3), [3,6), [6,9); index 9 is dropped
    let all = names(&[
        "f_v0.png", "f_v1.png", "f_v2.png", "f_v3.png", "f_v4.png", "f_v5.png", "f_v6.png",
        "f_v7.png", "f_v8.png", "f_v9.png",
    ]);
    let b0 = select_for_bucket(all.clone(), 10, 3, 0);
    let b1 = select_for_bucket(all.clone(), 10, 3, 1);
    let b2 = select_for_bucket(all.clone(), 10, 3, 2);
    assert_eq!(b0, names(&["f_v0.png", "f_v1.png", "f_v2.png"]));
    assert_eq!(b1, names(&["f_v3.png", "f_v4.png", "f_v5.png"]));
    assert_eq!(b2, names(&["f_v6.png", "f_v7.png", "f_v8.png"]));
    // view index 9 >= floor(10/3)*3 = 9 is copied by no bucket
    for bucket in [&b0, &b1, &b2] {
        assert!(!bucket.contains(&b"f_v9.png".to_vec()));
    }
}

#[test]
fn degenerate_buckets_copy_nothing() {
    // fewer views than folders: bucket width 0, a legitimate no-op
    let all = names(&["f_v0.png", "f_v1.png"]);
    for i in 0..3 {
        assert!(select_for_bucket(all.clone(), 2, 3, i).is_empty());
    }
}

#[test]
fn unparseable_names_are_skipped_not_fatal() {
    let all = names(&["f_v1.png", "broken_vx.png", "nomarker.png", "f_v2.png"]);
    let b0 = select_for_bucket(all, 10, 2, 0);
    assert_eq!(b0, names(&["f_v1.png", "f_v2.png"]));
}

#[test]
fn plan_covers_each_folder_with_its_own_bucket() {
    let folder_a = names(&["a_v0.png", "a_v1.png", "a_v5.png"]);
    let folder_b = names(&["b_v0.png", "b_v5.png", "b_v9.png"]);
    let plan = sort_plan(vec![folder_a, folder_b], 10);
    assert_eq!(plan.len(), 2);
    // width = 5: folder 0 keeps [0,5), folder 1 keeps [5,10)
    assert_eq!(plan[0], names(&["a_v0.png", "a_v1.png"]));
    assert_eq!(plan[1], names(&["b_v5.png", "b_v9.png"]));
}

#[test]
fn round_trip_copies_exactly_the_bucket_with_content() {
    // simulate a copy: contents travel with their names unchanged
    let source: Vec<(Vec<u8>, Vec<u8>)> = vec![
        (b"f_v0.png".to_vec(), vec![1, 2, 3]),
        (b"f_v1.png".to_vec(), vec![4, 5]),
        (b"f_v2.png".to_vec(), vec![6]),
        (b"f_v3.png".to_vec(), vec![7, 8]),
    ];
    let all: Vec<Vec<u8>> = source.iter().map(|(n, _)| n.clone()).collect();
    // width = 4 / 2 = 2: bucket 0 is [0,2)
    let selected = select_for_bucket(all, 4, 2, 0);
    let copied: Vec<(Vec<u8>, Vec<u8>)> = source
        .iter()
        .filter(|(n, _)| selected.contains(n))
        .cloned()
        .collect();
    assert_eq!(
        copied,
        vec![
            (b"f_v0.png".to_vec(), vec![1, 2, 3]),
            (b"f_v1.png".to_vec(), vec![4, 5]),
        ]
    );
}

#[test]
fn sorts_names_lexicographically() {
    let unsorted = names(&["b_v2.png", "a_v10.png", "a_v1.png", "b_v2.png", "a_v2.png"]);
    let sorted = sort_names(unsorted);
    assert_eq!(
        sorted,
        names(&["a_v1.png", "a_v10.png", "a_v2.png", "b_v2.png", "b_v2.png"])
    );
}

#[test]
fn reports_unwanted_files() {
    let all = names(&["f_v1.png", "thumbs.db", "f_v2.png", "readme.txt"]);
    assert_eq!(unwanted_files(all), names(&["thumbs.db", "readme.txt"]));
}
