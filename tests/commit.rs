use cliff_core::commit::{Commit, Footer, Link, Signature};
use cliff_core::config::{CommitParser, GitConfig, LinkParser};
use cliff_core::error::Error;
use cliff_core::pattern::Pattern;

fn rule(message: &str, group: Option<&str>, skip: Option<bool>) -> CommitParser {
    CommitParser {
        message: Pattern::new(message).ok(),
        body: None,
        group: group.map(String::from),
        default_scope: None,
        scope: None,
        skip,
    }
}

#[test]
fn conventional_commit() -> Result<(), Error> {
    let test_cases = vec![
        (Commit::new(String::from("123123"), String::from("test(commit): add test")), true),
        (Commit::new(String::from("124124"), String::from("xyz")), false),
    ];
    for (commit, is_conventional) in &test_cases {
        assert_eq!(is_conventional, &commit.clone().into_conventional().is_ok())
    }
    let commit = test_cases[0].0.clone().parse(
        &[CommitParser {
            message: Pattern::new("test*").ok(),
            body: None,
            group: Some(String::from("test_group")),
            default_scope: Some(String::from("test_scope")),
            scope: None,
            skip: None,
        }],
        false,
        false,
    )?;
    assert_eq!(Some(String::from("test_group")), commit.group);
    assert_eq!(Some(String::from("test_scope")), commit.default_scope);
    Ok(())
}

#[test]
fn parse_link() -> Result<(), Error> {
    let test_cases = vec![
        (
            Commit::new(
                String::from("123123"),
                String::from("test(commit): add test\n\nBody with issue #123"),
            ),
            true,
        ),
        (
            Commit::new(
                String::from("123123"),
                String::from("test(commit): add test\n\nImlement RFC456\n\nFixes: #456"),
            ),
            true,
        ),
    ];
    for (commit, is_conventional) in &test_cases {
        assert_eq!(is_conventional, &commit.clone().into_conventional().is_ok())
    }
    let commit = Commit::new(
        String::from("123123"),
        String::from("test(commit): add test\n\nImlement RFC456\n\nFixes: #455"),
    );
    let commit = commit.parse_links(&[
        LinkParser {
            pattern: Pattern::new("RFC(\\d+)")?,
            href: String::from("rfc://$1"),
            text: None,
        },
        LinkParser {
            pattern: Pattern::new("#(\\d+)")?,
            href: String::from("https://github.com/$1"),
            text: None,
        },
    ])?;
    assert_eq!(
        vec![
            Link { text: String::from("RFC456"), href: String::from("rfc://456") },
            Link { text: String::from("#455"), href: String::from("https://github.com/455") }
        ],
        commit.links
    );
    Ok(())
}

#[test]
fn parse_commit() {
    assert_eq!(
        Commit::new(String::new(), String::from("test: no sha1 given")),
        Commit::from(String::from("test: no sha1 given"))
    );
    assert_eq!(
        Commit::new(
            String::from("8f55e69eba6e6ce811ace32bd84cc82215673cb6"),
            String::from("feat: do something")
        ),
        Commit::from(String::from("8f55e69eba6e6ce811ace32bd84cc82215673cb6 feat: do something"))
    );
    assert_eq!(
        Commit::new(
            String::from("3bdd0e690c4cd5bd00e5201cc8ef3ce3fb235853"),
            String::from("chore: do something")
        ),
        Commit::from(String::from("3bdd0e690c4cd5bd00e5201cc8ef3ce3fb235853 chore: do something"))
    );
    assert_eq!(
        Commit::new(String::new(), String::from("thisisinvalidsha1 style: add formatting")),
        Commit::from(String::from("thisisinvalidsha1 style: add formatting"))
    );
}

#[test]
fn id_prefix_needs_a_single_line_rest() {
    let text = "8f55e69eba6e6ce811ace32bd84cc82215673cb6 feat: one\ntwo";
    assert_eq!(Commit::new(String::new(), String::from(text)), Commit::from(String::from(text)));
    let upper = "8F55E69EBA6E6CE811ACE32BD84CC82215673CB6 feat: x";
    assert_eq!(Commit::from(String::from(upper)).id, "");
}

#[test]
fn conventional_parse_is_repeatable() {
    let c = Commit::new(String::from("1"), String::from("feat(core)!: drop support\n\nBody text"));
    let a = c.clone().into_conventional().unwrap();
    let b = c.into_conventional().unwrap();
    assert_eq!(a, b);
    let conv = a.conv.unwrap();
    assert_eq!(conv.kind, "feat");
    assert_eq!(conv.scope.as_deref(), Some("core"));
    assert_eq!(conv.description, "drop support");
    assert_eq!(conv.body.as_deref(), Some("Body text"));
    assert!(conv.breaking);
    let x = Commit::new(String::from("2"), String::from("not conventional"));
    assert_eq!(x.clone().into_conventional(), x.into_conventional());
}

#[test]
fn unconventional_message_gives_parse_error() {
    let c = Commit::new(String::from("1"), String::from("xyz"));
    assert!(matches!(c.into_conventional(), Err(Error::ParseError(_))));
}

#[test]
fn skip_rule_first_drops_commit() {
    let c = Commit::new(String::from("1"), String::from("chore: release"));
    let r = c.parse(&[rule("^chore", None, Some(true)), rule("^chore", Some("g"), None)], false, false);
    assert_eq!(r, Err(Error::GroupError(String::from("Skipping commit"))));
}

#[test]
fn breaking_commit_protection() {
    let c = Commit::new(String::from("1"), String::from("feat!: break it")).into_conventional().unwrap();
    let rules = [CommitParser {
        message: Pattern::new("^feat").ok(),
        body: None,
        group: Some(String::from("Features")),
        default_scope: None,
        scope: Some(String::from("api")),
        skip: Some(true),
    }];
    let kept = c.clone().parse(&rules, true, false).unwrap();
    assert_eq!(kept.group.as_deref(), Some("Features"));
    assert_eq!(kept.scope.as_deref(), Some("api"));
    assert_eq!(
        c.parse(&rules, false, false),
        Err(Error::GroupError(String::from("Skipping commit")))
    );
}

#[test]
fn unmatched_commit_with_filter() {
    let c = Commit::new(String::from("1"), String::from("docs: readme"));
    let rules = [rule("^feat", Some("Features"), None)];
    assert_eq!(c.clone().parse(&rules, false, false), Ok(c.clone()));
    assert_eq!(
        c.parse(&rules, false, true),
        Err(Error::GroupError(String::from("Commit does not belong to any group")))
    );
}

#[test]
fn body_rule_matches_conventional_body() {
    let c = Commit::new(String::from("1"), String::from("fix: thing\n\nsecurity issue"))
        .into_conventional()
        .unwrap();
    let rules = [CommitParser {
        message: None,
        body: Pattern::new("security").ok(),
        group: Some(String::from("Security")),
        default_scope: None,
        scope: None,
        skip: None,
    }];
    assert_eq!(c.parse(&rules, false, true).unwrap().group.as_deref(), Some("Security"));
}

#[test]
fn overlapping_link_rules_keep_duplicates() {
    let c = Commit::new(String::from("1"), String::from("fix #123"));
    let c = c
        .parse_links(&[
            LinkParser {
                pattern: Pattern::new("#(\\d+)").unwrap(),
                href: String::from("a/$1"),
                text: Some(String::from("issue $1")),
            },
            LinkParser {
                pattern: Pattern::new("#\\d+").unwrap(),
                href: String::from("b"),
                text: None,
            },
        ])
        .unwrap();
    assert_eq!(
        c.links,
        vec![
            Link { text: String::from("issue 123"), href: String::from("a/123") },
            Link { text: String::from("#123"), href: String::from("b") },
        ]
    );
}

#[test]
fn process_runs_all_stages() {
    let config = GitConfig {
        conventional_commits: Some(true),
        filter_unconventional: Some(true),
        commit_parsers: Some(vec![rule("^feat", Some("Features"), None)]),
        protect_breaking_commits: None,
        filter_commits: Some(true),
        link_parsers: Some(vec![LinkParser {
            pattern: Pattern::new("#(\\d+)").unwrap(),
            href: String::from("i/$1"),
            text: None,
        }]),
    };
    let c = Commit::new(String::from("1"), String::from("feat: add #7")).process(&config).unwrap();
    assert_eq!(c.group.as_deref(), Some("Features"));
    assert!(c.conv.is_some());
    assert_eq!(c.links, vec![Link { text: String::from("#7"), href: String::from("i/7") }]);
    let bad = Commit::new(String::from("2"), String::from("plain")).process(&config);
    assert!(matches!(bad, Err(Error::ParseError(_))));
    let lenient = GitConfig { filter_unconventional: Some(false), filter_commits: Some(false), ..config };
    let kept = Commit::new(String::from("3"), String::from("plain")).process(&lenient).unwrap();
    assert!(kept.conv.is_none());
}

#[test]
fn coauthors_from_message_lines() {
    let author = Signature { name: Some(String::from("A")), email: Some(String::from("a@x")), timestamp: 42 };
    let c = Commit::from_record(
        String::from("abc"),
        String::from("feat: x\n\nco-authored-by: Bob <bob@x.com>\nCo-authored-by: nobody"),
        author.clone(),
        Signature::empty(),
    )
    .unwrap();
    assert_eq!(c.coauthors.len(), 1);
    assert_eq!(c.coauthors[0].name.as_deref(), Some("Bob "));
    assert_eq!(c.coauthors[0].email.as_deref(), Some("bob@x.com"));
    assert_eq!(c.coauthors[0].timestamp, 42);
    assert_eq!(c.author, author);
}

#[test]
fn invalid_pattern_is_an_error() {
    assert!(matches!(Pattern::new("("), Err(Error::PatternError(_))));
}

#[test]
fn author_lists() {
    let mut c = Commit::new(String::from("1"), String::from("x"));
    assert!(c.authors().is_empty());
    c.github_author = Some(String::from("a"));
    c.github_coauthors = Some(vec![String::from("b"), String::from("c")]);
    assert_eq!(c.github_authors(), vec!["a", "b", "c"]);
    assert_eq!(c.authors(), vec!["a", "b", "c"]);
    assert!(c.pull_requests().is_empty());
    c.pull_requests = Some(vec![3, 4]);
    assert_eq!(c.pull_requests(), vec![3, 4]);
}

fn footer(token: &str, separator: &str, value: &str, breaking: bool) -> Footer {
    Footer {
        token: String::from(token),
        separator: String::from(separator),
        value: String::from(value),
        breaking,
    }
}

// The separator is the one the conventional parser reports: `:` (the space
// after it belongs to neither token nor value).
#[test]
fn conventional_footers() {
    let cfg = GitConfig {
        conventional_commits: Some(true),
        filter_unconventional: None,
        commit_parsers: None,
        protect_breaking_commits: None,
        filter_commits: None,
        link_parsers: None,
    };
    let test_cases = vec![
        (
            Commit::new(
                String::from("123123"),
                String::from("test(commit): add test\n\nSigned-off-by: Test User <test@example.com>"),
            ),
            vec![footer("Signed-off-by", ":", "Test User <test@example.com>", false)],
        ),
        (
            Commit::new(
                String::from("123124"),
                String::from(
                    "fix(commit): break stuff\n\nBREAKING CHANGE: This commit breaks stuff\nSigned-off-by: Test User <test@example.com>",
                ),
            ),
            vec![
                footer("BREAKING CHANGE", ":", "This commit breaks stuff", true),
                footer("Signed-off-by", ":", "Test User <test@example.com>", false),
            ],
        ),
    ];
    for (commit, footers) in &test_cases {
        let commit = commit.clone().process(&cfg).expect("commit should process");
        assert_eq!(&commit.conv.unwrap().footers, footers);
    }
}
