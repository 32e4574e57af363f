use cliff_core::commit::{Commit, Signature};
use cliff_core::github::{CoauthorStep, Resolver};

fn with_author(id: &str, email: &str) -> Commit {
    let mut c = Commit::new(String::from(id), String::from("feat: x"));
    c.author = Signature { name: Some(String::from("A")), email: Some(String::from(email)), timestamp: 0 };
    c
}

#[test]
fn author_lookup_once_per_email() {
    let mut r = Resolver::new().unwrap();
    let mut first = with_author("1", "a@x");
    assert!(r.resolve_author(&mut first, true));
    r.author_fetched(&mut first, String::from("alice"));
    assert_eq!(first.github_author.as_deref(), Some("alice"));
    let mut second = with_author("2", "a@x");
    assert!(!r.resolve_author(&mut second, true));
    assert_eq!(second.github_author.as_deref(), Some("alice"));
    let mut third = with_author("3", "c@x");
    assert!(!r.resolve_author(&mut third, false));
    assert_eq!(third.github_author, None);
    assert_eq!(r.usernames.len(), 1);
}

#[test]
fn pull_request_from_message_end() {
    let r = Resolver::new().unwrap();
    let mut c = Commit::new(String::from("1"), String::from("feat: x (#12)\n\nbody"));
    r.pull_requests_from_message(&mut c);
    assert_eq!(c.pull_requests, Some(vec![12]));
    let mut d = Commit::new(String::from("2"), String::from("feat: x (#99999999999)"));
    r.pull_requests_from_message(&mut d);
    assert_eq!(d.pull_requests, None);
    let mut e = Commit::new(String::from("3"), String::from("feat: x #12"));
    r.pull_requests_from_message(&mut e);
    assert_eq!(e.pull_requests, None);
}

#[test]
fn coauthors_resolved_once_per_key() {
    let mut r = Resolver::new().unwrap();
    let bob = Signature { name: Some(String::from("Bob")), email: Some(String::from("b@x")), timestamp: 0 };
    let mut c = Commit::new(String::from("1"), String::from("feat: x"));
    c.coauthors = vec![bob.clone()];
    assert_eq!(r.resolve_coauthors(&mut c), CoauthorStep::FetchPullRequests);
    r.pull_requests_fetched(&mut c, vec![5]);
    assert_eq!(r.resolve_coauthors(&mut c), CoauthorStep::FetchPullRequestAuthors);
    r.pull_request_authors_fetched(&mut c, vec![String::from("bob"), String::from("me")]);
    assert_eq!(c.github_coauthors, Some(vec![String::from("bob"), String::from("me")]));
    let mut d = Commit::new(String::from("2"), String::from("feat: y"));
    d.coauthors = vec![bob];
    d.pull_requests = Some(vec![6]);
    assert_eq!(r.resolve_coauthors(&mut d), CoauthorStep::Done);
    assert_eq!(d.github_coauthors, Some(vec![String::from("bob"), String::from("me")]));
}

#[test]
fn coauthors_from_email_cache() {
    let mut r = Resolver::new().unwrap();
    let mut a = with_author("1", "b@x");
    assert!(r.resolve_author(&mut a, true));
    r.author_fetched(&mut a, String::from("bobby"));
    let mut c = Commit::new(String::from("2"), String::from("feat: x"));
    c.coauthors = vec![Signature { name: Some(String::from("Bob")), email: Some(String::from("b@x")), timestamp: 0 }];
    assert_eq!(r.resolve_coauthors(&mut c), CoauthorStep::Done);
    assert_eq!(c.github_coauthors, Some(vec![String::from("bobby")]));
    let mut none = Commit::new(String::from("3"), String::from("feat: z"));
    assert_eq!(r.resolve_coauthors(&mut none), CoauthorStep::Done);
    assert_eq!(none.github_coauthors, None);
}
