use file_grouper::grouping::{get_prefix, search_files_by_prefix, search_group, search_header_file};

fn listing(names: &[&str]) -> Vec<String> {
    names.iter().map(|name| name.to_string()).collect()
}

fn sample_directory() -> Vec<String> {
    listing(&["sample1.csv", "sample2.csv", "sample_Header.txt"])
}

fn project_directory() -> Vec<String> {
    listing(&["Cargo.toml", "Cargo.lock", "README.md", "sample", "src", "target"])
}

#[test]
fn search_sample_header_file() {
    let v = search_header_file(&sample_directory());
    assert_eq!(v.len(), 1);
    assert_eq!(v[0], "sample_Header.txt");
}

#[test]
fn search_non_existing_file() {
    let v = search_header_file(&project_directory());
    assert_eq!(v.len(), 0);
}

#[test]
fn get_sample_file_prefix() {
    let prefixes = get_prefix(&sample_directory());
    assert_eq!(prefixes.len(), 1);
    assert_eq!(prefixes[0], "sample");
}

#[test]
fn get_non_existing_file_prefix() {
    let prefixes = get_prefix(&project_directory());
    assert_eq!(prefixes.len(), 0);
}

#[test]
fn groups_of_sample_directory() {
    let groups = search_files_by_prefix(&sample_directory());
    assert_eq!(groups, vec![listing(&["sample1.csv", "sample2.csv"])]);
}

#[test]
fn two_headers_give_two_groups() {
    let entries = listing(&["a_Header.txt", "a_1.csv", "a_2.csv", "b_Header.txt", "b_1.csv"]);
    assert_eq!(search_header_file(&entries), listing(&["a_Header.txt", "b_Header.txt"]));
    assert_eq!(get_prefix(&entries), listing(&["a", "b"]));
    assert_eq!(
        search_files_by_prefix(&entries),
        vec![listing(&["a_1.csv", "a_2.csv"]), listing(&["b_1.csv"])]
    );
}

#[test]
fn empty_directory_has_no_headers_and_no_groups() {
    let entries: Vec<String> = Vec::new();
    assert_eq!(search_header_file(&entries), Vec::<String>::new());
    assert_eq!(get_prefix(&entries), Vec::<String>::new());
    assert_eq!(search_files_by_prefix(&entries), Vec::<Vec<String>>::new());
}

#[test]
fn directory_without_headers_has_no_groups() {
    let entries = listing(&["a_1.csv", "a_2.csv", "notes.txt"]);
    assert_eq!(search_files_by_prefix(&entries), Vec::<Vec<String>>::new());
}

#[test]
fn header_without_data_files_gives_an_empty_group() {
    let entries = listing(&["a_Header.txt", "b_1.csv"]);
    assert_eq!(search_files_by_prefix(&entries), vec![Vec::<String>::new()]);
    let mixed = listing(&["a_Header.txt", "b_Header.txt", "b_1.csv"]);
    assert_eq!(
        search_files_by_prefix(&mixed),
        vec![Vec::<String>::new(), listing(&["b_1.csv"])]
    );
}

#[test]
fn grouping_twice_gives_the_same_groups() {
    let entries = listing(&["a_Header.txt", "a_1.csv", "b_Header.txt", "b_1.csv", "c.txt"]);
    let first = search_files_by_prefix(&entries);
    let second = search_files_by_prefix(&entries);
    assert_eq!(first, second);
    assert_eq!(first, vec![listing(&["a_1.csv"]), listing(&["b_1.csv"])]);
}

#[test]
fn header_files_are_in_no_group() {
    let entries = listing(&["a_Header.txt", "a_b_Header.txt", "a_b_1.csv", "a_1.csv"]);
    assert_eq!(get_prefix(&entries), listing(&["a", "a_b"]));
    assert_eq!(
        search_files_by_prefix(&entries),
        vec![listing(&["a_b_1.csv", "a_1.csv"]), listing(&["a_b_1.csv"])]
    );
}

#[test]
fn an_entry_may_stand_in_several_groups() {
    let entries = listing(&["ab_1.csv", "a_Header.txt", "ab_Header.txt", "a_2.csv"]);
    assert_eq!(
        search_files_by_prefix(&entries),
        vec![listing(&["ab_1.csv", "a_2.csv"]), listing(&["ab_1.csv"])]
    );
}

#[test]
fn equal_headers_give_equal_groups_side_by_side() {
    let entries = listing(&["a_Header.txt", "a_1.csv", "a_Header.txt"]);
    assert_eq!(get_prefix(&entries), listing(&["a", "a"]));
    assert_eq!(
        search_files_by_prefix(&entries),
        vec![listing(&["a_1.csv"]), listing(&["a_1.csv"])]
    );
}

#[test]
fn groups_keep_the_order_of_the_listing() {
    let entries = listing(&["s_3", "s_Header.txt", "s_1", "t_1", "s_2"]);
    assert_eq!(search_files_by_prefix(&entries), vec![listing(&["s_3", "s_1", "s_2"])]);
}

#[test]
fn matching_is_case_sensitive() {
    let entries = listing(&["a_Header.txt", "A_1.csv", "a_1.csv", "b_header.txt"]);
    assert_eq!(search_header_file(&entries), listing(&["a_Header.txt"]));
    assert_eq!(search_files_by_prefix(&entries), vec![listing(&["a_1.csv"])]);
}

#[test]
fn bare_marker_announces_the_empty_prefix() {
    let entries = listing(&["_Header.txt", "x.csv", "y_Header.txt", "y.csv"]);
    assert_eq!(get_prefix(&entries), listing(&["", "y"]));
    assert_eq!(
        search_files_by_prefix(&entries),
        vec![listing(&["x.csv", "y.csv"]), listing(&["y.csv"])]
    );
}

#[test]
fn group_of_a_given_prefix() {
    let entries = listing(&["a_Header.txt", "a_1.csv", "b_1.csv", "a"]);
    assert_eq!(search_group(&entries, "a"), listing(&["a_1.csv", "a"]));
    assert_eq!(search_group(&entries, "a_"), listing(&["a_1.csv"]));
    assert_eq!(search_group(&entries, "c"), Vec::<String>::new());
    assert_eq!(search_group(&entries, ""), listing(&["a_1.csv", "b_1.csv", "a"]));
}
