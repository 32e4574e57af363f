use cliff_core::commit::{Commit, Signature};
use cliff_core::release::bucket_releases;

fn commit(id: &str, time: i64) -> Commit {
    let mut c = Commit::new(String::from(id), format!("feat: {id}"));
    c.committer = Signature { name: None, email: None, timestamp: time };
    c
}

#[test]
fn one_tag_gives_two_releases() {
    let tags = vec![(String::from("c2"), String::from("v1.0"))];
    let r = bucket_releases(vec![commit("c1", 1), commit("c2", 2), commit("c3", 3)], &tags, false, vec![]);
    assert_eq!(r.len(), 2);
    assert_eq!(r[0].version.as_deref(), Some("v1.0"));
    assert_eq!(r[0].commit_id.as_deref(), Some("c2"));
    assert_eq!(r[0].timestamp, 2);
    let ids: Vec<&str> = r[0].commits.iter().map(|c| c.id.as_str()).collect();
    assert_eq!(ids, vec!["c1", "c2"]);
    let prev = r[0].previous.as_ref().unwrap();
    assert_eq!(prev.version, None);
    assert!(prev.commits.is_empty());
    assert!(prev.previous.is_none());
    assert_eq!(r[1].version, None);
    let ids: Vec<&str> = r[1].commits.iter().map(|c| c.id.as_str()).collect();
    assert_eq!(ids, vec!["c3"]);
    assert!(r[1].previous.is_none());
}

#[test]
fn newest_first_and_previous_links() {
    let tags = vec![
        (String::from("c1"), String::from("v1")),
        (String::from("c3"), String::from("v2")),
    ];
    let r = bucket_releases(
        vec![commit("c1", 1), commit("c2", 2), commit("c3", 3)],
        &tags,
        true,
        vec![Commit::from(String::from("custom message"))],
    );
    assert_eq!(r.len(), 3);
    let ids: Vec<&str> = r[1].commits.iter().map(|c| c.id.as_str()).collect();
    assert_eq!(ids, vec!["c3", "c2"]);
    let second_prev = r[1].previous.as_ref().unwrap();
    assert_eq!(second_prev.version.as_deref(), Some("v1"));
    assert_eq!(second_prev.commits.len(), 1);
    assert!(second_prev.previous.is_none());
    // The first release looks back to the second-to-last tag.
    let first_prev = r[0].previous.as_ref().unwrap();
    assert_eq!(first_prev.version.as_deref(), Some("v1"));
    assert_eq!(first_prev.commit_id.as_deref(), Some("c1"));
    assert_eq!(r[2].commits.len(), 1);
    assert_eq!(r[2].commits[0].message, "custom message");
}

#[test]
fn no_commits_gives_one_empty_release() {
    let r = bucket_releases(vec![], &vec![], false, vec![]);
    assert_eq!(r.len(), 1);
    assert!(r[0].commits.is_empty());
    assert!(r[0].previous.is_none());
}

use cliff_core::error::Error;
use cliff_core::pattern::Pattern;
use cliff_core::release::{add_tag, commit_range, filter_tags};

fn tags(pairs: &[(&str, &str)]) -> Vec<(String, String)> {
    pairs.iter().map(|(a, b)| (String::from(*a), String::from(*b))).collect()
}

#[test]
fn ignored_tags_are_dropped_unless_skipped() {
    let t = tags(&[("a", "v1.0"), ("b", "v1.1-beta"), ("c", "v1.1-rc"), ("d", "v2.0")]);
    let ignore = Pattern::new("beta|rc").unwrap();
    let skip = Pattern::new("rc").unwrap();
    let kept = filter_tags(t.clone(), Some(&skip), Some(&ignore));
    assert_eq!(kept, tags(&[("a", "v1.0"), ("c", "v1.1-rc"), ("d", "v2.0")]));
    let blank = Pattern::new("  ").unwrap();
    assert_eq!(filter_tags(t.clone(), None, Some(&blank)), t);
    let empty = Pattern::new("").unwrap();
    assert_eq!(filter_tags(t, Some(&empty), Some(&ignore)), tags(&[("a", "v1.0"), ("d", "v2.0")]));
}

#[test]
fn tag_added_only_to_untagged_commit() {
    let mut t = tags(&[("a", "v1")]);
    add_tag(&mut t, String::from("a"), String::from("v9"));
    assert_eq!(t, tags(&[("a", "v1")]));
    add_tag(&mut t, String::from("b"), String::from("v2"));
    assert_eq!(t, tags(&[("a", "v1"), ("b", "v2")]));
}

#[test]
fn ranges_for_unreleased_latest_and_current() {
    let t = tags(&[("a", "v1"), ("b", "v2"), ("c", "v3")]);
    let none: Option<String> = None;
    assert_eq!(commit_range(&t, None, true, false, false, None, None), Ok(Some(String::from("c..HEAD"))));
    assert_eq!(commit_range(&t, None, false, true, false, None, None), Ok(Some(String::from("b..c"))));
    assert_eq!(
        commit_range(&t, None, false, false, true, Some(String::from("v2")), None),
        Ok(Some(String::from("a..b")))
    );
    assert_eq!(
        commit_range(&t, None, false, false, true, Some(String::from("v7")), None),
        Err(Error::ChangelogError(String::from("No tag exists for the current commit")))
    );
    let one = tags(&[("a", "v1")]);
    assert_eq!(
        commit_range(&one, None, false, true, false, None, Some(String::from("root"))),
        Ok(Some(String::from("root..a")))
    );
    assert_eq!(commit_range(&t, Some(String::from("x..y")), false, false, false, None, none), Ok(Some(String::from("x..y"))));
}
