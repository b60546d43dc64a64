use article_index::watch::WatchEvent;
use article_index::watch::diff;
use article_index::watch::is_change;
use article_index::watch::split_md;

#[test]
fn split_md_round_trip_example() {
    let listing = b"post1.md\npost2.md\n".to_vec();
    assert_eq!(
        split_md(listing),
        vec![String::from("post1"), String::from("post2")]
    );
}

#[test]
fn split_md_keeps_a_final_fragment_with_a_period() {
    let listing = b"post1.md\npost2.md".to_vec();
    assert_eq!(
        split_md(listing),
        vec![String::from("post1"), String::from("post2")]
    );
}

#[test]
fn split_md_drops_lines_without_a_period() {
    let listing = b"README\npost.md\nnotes".to_vec();
    assert_eq!(split_md(listing), vec![String::from("post")]);
}

#[test]
fn split_md_cuts_at_the_first_period() {
    let listing = b"archive.tar.gz\n".to_vec();
    assert_eq!(split_md(listing), vec![String::from("archive")]);
}

#[test]
fn split_md_of_empty_listing_is_empty() {
    assert_eq!(split_md(Vec::new()), Vec::<String>::new());
}

#[test]
fn diff_is_reflexive() {
    let snapshot = vec![String::from("post1"), String::from("post2")];
    let same = snapshot.clone();
    assert_eq!(diff(&snapshot, same), WatchEvent::NoChange);

    let empty: Vec<String> = Vec::new();
    assert_eq!(diff(&empty, Vec::new()), WatchEvent::NoChange);
}

#[test]
fn diff_reports_an_appended_entry() {
    let snapshot = vec![String::from("post1")];
    let mut grown = snapshot.clone();
    grown.push(String::from("phantom"));
    let event = diff(&snapshot, grown.clone());
    assert_eq!(event, WatchEvent::HasChange(grown));
}

#[test]
fn diff_reports_a_reordering() {
    let snapshot = vec![String::from("a"), String::from("b")];
    let swapped = vec![String::from("b"), String::from("a")];
    let event = diff(&snapshot, swapped.clone());
    assert_eq!(event, WatchEvent::HasChange(swapped));
}

#[test]
fn is_change_on_same_listing_is_no_change() {
    let old_list = vec![String::from("post1"), String::from("post2")];
    let event = is_change(&old_list, b"post1.md\npost2.md\n".to_vec());
    assert_eq!(event, WatchEvent::NoChange);
}

#[test]
fn is_change_on_grown_listing_reports_the_new_snapshot() {
    let old_list = vec![String::from("post1")];
    let event = is_change(&old_list, b"post1.md\npost2.md\n".to_vec());
    assert_eq!(
        event,
        WatchEvent::HasChange(vec![String::from("post1"), String::from("post2")])
    );
}
